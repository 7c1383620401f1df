//! The tree-to-model mapper: a single linear pass over the parse tree
//! that dispatches every property node by its rule kind.
//!
//! Three policies exist. A singleton field keeps the span of the last
//! occurrence; an ordered-list field collects every span in source order,
//! coming into existence on the first one; `exec_start` alone is a
//! tokenized singleton: the first `ExecStart` directive is split on
//! whitespace and later ones are ignored. Rule kinds a section does not
//! recognize are skipped without error.

use vstd::prelude::*;
use crate::grammar::{
    Rule, PropView, SectionView, PropNode, FileNode, SectionType, section_type_of,
    unit_head, service_head, install_head, lemma_heads, is_space_byte,
};
use crate::schema::{
    UnitSection, ServiceSection, InstallSection, SystemdFile, UnitSectionView, ServiceSectionView,
    InstallSectionView, SystemdFileView, opt_list_view,
};

verus! {

/// The spans of the properties of rule `r`, in source order.
pub open spec fn props_with(props: Seq<PropView>, r: Rule) -> Seq<Seq<u8>>
    decreases props.len(),
{
    if props.len() == 0 {
        Seq::empty()
    } else if props.last().rule == r {
        props_with(props.drop_last(), r).push(props.last().span)
    } else {
        props_with(props.drop_last(), r)
    }
}

/// Appending a property extends exactly the spans of its own rule.
pub proof fn lemma_props_with_push(props: Seq<PropView>, p: PropView, r: Rule)
    ensures
        props_with(props.push(p), r) == if p.rule == r {
            props_with(props, r).push(p.span)
        } else {
            props_with(props, r)
        },
{
    assert(props.push(p).drop_last() =~= props);
}

/// `props_with` distributes over concatenation.
pub proof fn lemma_props_with_concat(a: Seq<PropView>, b: Seq<PropView>, r: Rule)
    ensures
        props_with(a + b, r) == props_with(a, r) + props_with(b, r),
    decreases b.len(),
{
    if b.len() == 0 {
        assert(a + b =~= a);
        assert(props_with(a, r) + props_with(b, r) =~= props_with(a, r));
    } else {
        lemma_props_with_concat(a, b.drop_last(), r);
        assert((a + b).drop_last() =~= a + b.drop_last());
        assert(props_with(a, r) + props_with(b.drop_last(), r).push(b.last().span) =~= (props_with(
            a,
            r,
        ) + props_with(b.drop_last(), r)).push(b.last().span));
    }
}

/// The captured span of the last property of rule `r`, or empty.
pub open spec fn spec_last_span(props: Seq<PropView>, r: Rule) -> Seq<u8> {
    let w = props_with(props, r);
    if w.len() == 0 {
        Seq::empty()
    } else {
        w.last()
    }
}

/// Singleton policy: the last occurrence, if any.
pub open spec fn spec_singleton(props: Seq<PropView>, r: Rule) -> Option<Seq<u8>> {
    let w = props_with(props, r);
    if w.len() == 0 {
        None
    } else {
        Some(w.last())
    }
}

/// Ordered-append policy: every occurrence in order, if there is any.
pub open spec fn spec_list(props: Seq<PropView>, r: Rule) -> Option<Seq<Seq<u8>>> {
    let w = props_with(props, r);
    if w.len() == 0 {
        None
    } else {
        Some(w)
    }
}

/// One whitespace-split step: bytes still to read on the left, the token
/// collected so far on the right.
pub open spec fn spec_split_ws_acc(l: Seq<u8>, cur: Seq<u8>) -> Seq<Seq<u8>>
    decreases l.len(),
{
    if l.len() == 0 {
        if cur.len() == 0 {
            Seq::empty()
        } else {
            seq![cur]
        }
    } else if is_space_byte(l[0]) {
        if cur.len() == 0 {
            spec_split_ws_acc(l.drop_first(), cur)
        } else {
            seq![cur] + spec_split_ws_acc(l.drop_first(), Seq::empty())
        }
    } else {
        spec_split_ws_acc(l.drop_first(), cur.push(l[0]))
    }
}

/// The whitespace-delimited tokens of a line, in order, empties dropped.
pub open spec fn spec_split_ws(l: Seq<u8>) -> Seq<Seq<u8>> {
    spec_split_ws_acc(l, Seq::empty())
}

/// Tokenized-singleton policy: the tokens of the first `ExecStart`
/// property whose span has a token at all; properties after that point
/// leave the field unchanged.
pub open spec fn spec_exec_start(props: Seq<PropView>) -> Seq<Seq<u8>>
    decreases props.len(),
{
    if props.len() == 0 {
        Seq::empty()
    } else {
        let prev = spec_exec_start(props.drop_last());
        if props.last().rule == Rule::ExecStart && prev.len() == 0 {
            spec_split_ws(props.last().span)
        } else {
            prev
        }
    }
}

/// Appending a property changes `spec_exec_start` only when it is the
/// first `ExecStart` one that yields tokens.
pub proof fn lemma_exec_start_push(props: Seq<PropView>, p: PropView)
    ensures
        spec_exec_start(props.push(p)) == if p.rule == Rule::ExecStart && spec_exec_start(
            props,
        ).len() == 0 {
            spec_split_ws(p.span)
        } else {
            spec_exec_start(props)
        },
{
    assert(props.push(p).drop_last() =~= props);
}

/// The properties of every section with heading `h`, concatenated in
/// source order.
pub open spec fn props_of(secs: Seq<SectionView>, h: Seq<u8>) -> Seq<PropView>
    decreases secs.len(),
{
    if secs.len() == 0 {
        Seq::empty()
    } else if secs.last().head == h {
        props_of(secs.drop_last(), h) + secs.last().props
    } else {
        props_of(secs.drop_last(), h)
    }
}

/// Appending a section extends exactly the property stream of its own
/// heading.
pub proof fn lemma_props_of_push(secs: Seq<SectionView>, s: SectionView, h: Seq<u8>)
    ensures
        props_of(secs.push(s), h) == if s.head == h {
            props_of(secs, h) + s.props
        } else {
            props_of(secs, h)
        },
{
    assert(secs.push(s).drop_last() =~= secs);
}

/// `props_of` distributes over concatenation.
pub proof fn lemma_props_of_concat(a: Seq<SectionView>, b: Seq<SectionView>, h: Seq<u8>)
    ensures
        props_of(a + b, h) == props_of(a, h) + props_of(b, h),
    decreases b.len(),
{
    if b.len() == 0 {
        assert(a + b =~= a);
        assert(props_of(a, h) + props_of(b, h) =~= props_of(a, h));
    } else {
        lemma_props_of_concat(a, b.drop_last(), h);
        assert((a + b).drop_last() =~= a + b.drop_last());
        assert(props_of(a, h) + (props_of(b.drop_last(), h) + b.last().props) =~= (props_of(a, h)
            + props_of(b.drop_last(), h)) + b.last().props);
    }
}

/// Some section of `secs` carries heading `h`.
pub open spec fn spec_head_present(secs: Seq<SectionView>, h: Seq<u8>) -> bool {
    exists|j: int| 0 <= j < secs.len() && (#[trigger] secs[j]).head == h
}

/// The unit section a property stream builds.
pub open spec fn spec_unit_view(props: Seq<PropView>, present: bool) -> UnitSectionView {
    UnitSectionView {
        head: if present {
            unit_head()
        } else {
            Seq::empty()
        },
        comments: spec_list(props, Rule::Comment),
        description: spec_last_span(props, Rule::Description),
        after: spec_list(props, Rule::After),
        documentation: spec_list(props, Rule::Documentation),
        requires_list: spec_list(props, Rule::Requires),
        wants: spec_list(props, Rule::Wants),
        binds_to: spec_singleton(props, Rule::BindsTo),
        before: spec_list(props, Rule::Before),
        conflicts: spec_list(props, Rule::Conflicts),
        condition: spec_singleton(props, Rule::Condition),
        assert_list: spec_list(props, Rule::Assert),
        condition_path_exists: spec_singleton(props, Rule::ConditionPathExists),
    }
}

/// The service section a property stream builds.
pub open spec fn spec_service_view(props: Seq<PropView>, present: bool) -> ServiceSectionView {
    ServiceSectionView {
        head: if present {
            service_head()
        } else {
            Seq::empty()
        },
        comments: spec_list(props, Rule::Comment),
        service_type: spec_last_span(props, Rule::ServiceType),
        exec_start: spec_exec_start(props),
        start_pre: spec_singleton(props, Rule::StartPre),
        start_post: spec_singleton(props, Rule::StartPost),
        reload: spec_list(props, Rule::Reload),
        exec_stop: spec_singleton(props, Rule::ExecStop),
        stop_post: spec_singleton(props, Rule::StopPost),
        restart_sec: spec_singleton(props, Rule::RestartSec),
        restart: spec_singleton(props, Rule::Restart),
        timeout_sec: spec_singleton(props, Rule::TimeoutSec),
        environment_file: spec_singleton(props, Rule::EnvironmentFile),
        kill_mode: spec_singleton(props, Rule::KillMode),
        restart_prevent_exit_status: spec_singleton(props, Rule::RestartPreventExitStatus),
        runtime_directory: spec_singleton(props, Rule::RuntimeDirectory),
        runtime_directory_mode: spec_singleton(props, Rule::RuntimeDirectoryMode),
        environment: spec_singleton(props, Rule::Environment),
        standard_output: spec_singleton(props, Rule::StandardOutput),
        limit_no_file: spec_singleton(props, Rule::LimitNoFile),
    }
}

/// The install section a property stream builds.
pub open spec fn spec_install_view(props: Seq<PropView>, present: bool) -> InstallSectionView {
    InstallSectionView {
        head: if present {
            install_head()
        } else {
            Seq::empty()
        },
        comments: spec_list(props, Rule::Comment),
        wanted_by: spec_singleton(props, Rule::WantedBy),
        required_by: spec_singleton(props, Rule::RequiredBy),
        alias: spec_singleton(props, Rule::Alias),
        also: spec_singleton(props, Rule::Also),
        default_instance: spec_singleton(props, Rule::DefaultInstance),
    }
}

/// The model a parse tree maps to: each of the three known sections is
/// built from the concatenated property streams of its headings, and a
/// section never seen stays at its default.
pub open spec fn spec_map(secs: Seq<SectionView>) -> SystemdFileView {
    SystemdFileView {
        unit: spec_unit_view(props_of(secs, unit_head()), spec_head_present(secs, unit_head())),
        service: spec_service_view(
            props_of(secs, service_head()),
            spec_head_present(secs, service_head()),
        ),
        install: spec_install_view(
            props_of(secs, install_head()),
            spec_head_present(secs, install_head()),
        ),
    }
}


/// The elements of an optional list field, empty when the field is absent.
pub open spec fn opt_items(o: Option<Seq<Seq<u8>>>) -> Seq<Seq<u8>> {
    match o {
        None => Seq::empty(),
        Some(s) => s,
    }
}

/// Ordered append: adds one captured span to a list field, creating the
/// list on first use.
fn append_list(o: Option<Vec<Vec<u8>>>, x: &Vec<u8>) -> (r: Option<Vec<Vec<u8>>>)
    ensures
        opt_list_view(r) == Some(opt_items(opt_list_view(o)).push(x@)),
{
    match o {
        None => {
            let mut v: Vec<Vec<u8>> = Vec::new();
            v.push(x.clone());
            proof {
                assert(v.deep_view() =~~= opt_items(opt_list_view(Option::<Vec<Vec<u8>>>::None)).push(x@));
            }
            Some(v)
        },
        Some(mut v) => {
            let ghost pre = v.deep_view();
            v.push(x.clone());
            proof {
                assert(v.deep_view() =~~= pre.push(x@));
            }
            Some(v)
        },
    }
}

/// Splits a captured line into its whitespace-delimited tokens.
#[verifier::loop_isolation(false)]
pub fn split_ws(l: &Vec<u8>) -> (r: Vec<Vec<u8>>)
    ensures
        r.deep_view() == spec_split_ws(l@),
{
    let mut out: Vec<Vec<u8>> = Vec::new();
    let mut cur: Vec<u8> = Vec::new();
    let mut i: usize = 0;
    proof {
        assert(l@.skip(0) =~= l@);
        assert(out.deep_view() =~= Seq::<Seq<u8>>::empty());
        assert(spec_split_ws(l@) =~~= out.deep_view() + spec_split_ws_acc(l@.skip(0), cur@));
    }
    while i < l.len()
        invariant
            0 <= i <= l@.len(),
            spec_split_ws(l@) =~~= out.deep_view() + spec_split_ws_acc(l@.skip(i as int), cur@),
        decreases l@.len() - i,
    {
        proof {
            assert(l@.skip(i as int).drop_first() =~= l@.skip(i + 1));
            assert(l@.skip(i as int)[0] == l@[i as int]);
        }
        let ghost preout = out.deep_view();
        let ghost precur = cur@;
        let b = l[i];
        if b == 32 || b == 9 {
            if cur.len() > 0 {
                out.push(cur);
                cur = Vec::new();
                proof {
                    assert(out.deep_view() =~~= preout.push(precur));
                    assert(preout + (seq![precur] + spec_split_ws_acc(l@.skip(i + 1), Seq::empty()))
                        =~~= out.deep_view() + spec_split_ws_acc(l@.skip(i + 1), cur@));
                }
            }
        } else {
            cur.push(b);
            proof {
                assert(cur@ =~= precur.push(l@[i as int]));
            }
        }
        i = i + 1;
    }
    proof {
        assert(l@.skip(i as int) =~= Seq::<u8>::empty());
    }
    if cur.len() > 0 {
        let ghost preout = out.deep_view();
        let ghost precur = cur@;
        out.push(cur);
        proof {
            assert(out.deep_view() =~~= preout.push(precur));
            assert(preout + seq![precur] =~~= out.deep_view());
        }
    } else {
        proof {
            assert(out.deep_view() + spec_split_ws_acc(Seq::empty(), cur@) =~~= out.deep_view());
        }
    }
    out
}

/// Applies one property node to the unit section.
fn apply_unit_prop(u: UnitSection, p: &PropNode, Ghost(ps): Ghost<Seq<PropView>>) -> (r:
    UnitSection)
    requires
        u@ == spec_unit_view(ps, true),
    ensures
        r@ == spec_unit_view(ps.push(p@), true),
{
    proof {
        lemma_props_with_push(ps, p@, Rule::Comment);
        lemma_props_with_push(ps, p@, Rule::Description);
        lemma_props_with_push(ps, p@, Rule::After);
        lemma_props_with_push(ps, p@, Rule::Documentation);
        lemma_props_with_push(ps, p@, Rule::Requires);
        lemma_props_with_push(ps, p@, Rule::Wants);
        lemma_props_with_push(ps, p@, Rule::BindsTo);
        lemma_props_with_push(ps, p@, Rule::Before);
        lemma_props_with_push(ps, p@, Rule::Conflicts);
        lemma_props_with_push(ps, p@, Rule::Condition);
        lemma_props_with_push(ps, p@, Rule::Assert);
        lemma_props_with_push(ps, p@, Rule::ConditionPathExists);
    }
    let mut u = u;
    match p.rule {
        Rule::Description => {
            u.description = p.span.clone();
        },
        Rule::Comment => {
            u.comments = append_list(u.comments, &p.span);
        },
        Rule::After => {
            u.after = append_list(u.after, &p.span);
        },
        Rule::Documentation => {
            u.documentation = append_list(u.documentation, &p.span);
        },
        Rule::Requires => {
            u.requires_list = append_list(u.requires_list, &p.span);
        },
        Rule::Wants => {
            u.wants = append_list(u.wants, &p.span);
        },
        Rule::BindsTo => {
            u.binds_to = Some(p.span.clone());
        },
        Rule::Before => {
            u.before = append_list(u.before, &p.span);
        },
        Rule::Conflicts => {
            u.conflicts = append_list(u.conflicts, &p.span);
        },
        Rule::Condition => {
            u.condition = Some(p.span.clone());
        },
        Rule::Assert => {
            u.assert_list = append_list(u.assert_list, &p.span);
        },
        Rule::ConditionPathExists => {
            u.condition_path_exists = Some(p.span.clone());
        },
        _ => {},
    }
    proof {
        assert(u@ =~~= spec_unit_view(ps.push(p@), true));
    }
    u
}

/// Applies one property node to the service section.
#[verifier::rlimit(60)]
fn apply_service_prop(s: ServiceSection, p: &PropNode, Ghost(ps): Ghost<Seq<PropView>>) -> (r:
    ServiceSection)
    requires
        s@ == spec_service_view(ps, true),
    ensures
        r@ == spec_service_view(ps.push(p@), true),
{
    proof {
        lemma_props_with_push(ps, p@, Rule::Comment);
        lemma_props_with_push(ps, p@, Rule::ServiceType);
        lemma_props_with_push(ps, p@, Rule::StartPre);
        lemma_props_with_push(ps, p@, Rule::StartPost);
        lemma_props_with_push(ps, p@, Rule::Reload);
        lemma_props_with_push(ps, p@, Rule::ExecStop);
        lemma_props_with_push(ps, p@, Rule::StopPost);
        lemma_props_with_push(ps, p@, Rule::RestartSec);
        lemma_props_with_push(ps, p@, Rule::Restart);
        lemma_props_with_push(ps, p@, Rule::TimeoutSec);
        lemma_props_with_push(ps, p@, Rule::EnvironmentFile);
        lemma_props_with_push(ps, p@, Rule::KillMode);
        lemma_props_with_push(ps, p@, Rule::RestartPreventExitStatus);
        lemma_props_with_push(ps, p@, Rule::RuntimeDirectory);
        lemma_props_with_push(ps, p@, Rule::RuntimeDirectoryMode);
        lemma_props_with_push(ps, p@, Rule::Environment);
        lemma_props_with_push(ps, p@, Rule::StandardOutput);
        lemma_props_with_push(ps, p@, Rule::LimitNoFile);
        lemma_exec_start_push(ps, p@);
    }
    let mut s = s;
    match p.rule {
        Rule::Comment => {
            s.comments = append_list(s.comments, &p.span);
        },
        Rule::ServiceType => {
            s.service_type = p.span.clone();
        },
        Rule::ExecStart => {
            if s.exec_start.is_empty() {
                proof {
                    assert(s.exec_start.deep_view().len() == s.exec_start@.len());
                }
                s.exec_start = split_ws(&p.span);
            }
        },
        Rule::StartPre => {
            s.start_pre = Some(p.span.clone());
        },
        Rule::StartPost => {
            s.start_post = Some(p.span.clone());
        },
        Rule::Reload => {
            s.reload = append_list(s.reload, &p.span);
        },
        Rule::ExecStop => {
            s.exec_stop = Some(p.span.clone());
        },
        Rule::StopPost => {
            s.stop_post = Some(p.span.clone());
        },
        Rule::RestartSec => {
            s.restart_sec = Some(p.span.clone());
        },
        Rule::Restart => {
            s.restart = Some(p.span.clone());
        },
        Rule::TimeoutSec => {
            s.timeout_sec = Some(p.span.clone());
        },
        Rule::EnvironmentFile => {
            s.environment_file = Some(p.span.clone());
        },
        Rule::KillMode => {
            s.kill_mode = Some(p.span.clone());
        },
        Rule::RestartPreventExitStatus => {
            s.restart_prevent_exit_status = Some(p.span.clone());
        },
        Rule::RuntimeDirectory => {
            s.runtime_directory = Some(p.span.clone());
        },
        Rule::RuntimeDirectoryMode => {
            s.runtime_directory_mode = Some(p.span.clone());
        },
        Rule::Environment => {
            s.environment = Some(p.span.clone());
        },
        Rule::StandardOutput => {
            s.standard_output = Some(p.span.clone());
        },
        Rule::LimitNoFile => {
            s.limit_no_file = Some(p.span.clone());
        },
        _ => {},
    }
    proof {
        assert(s@ =~~= spec_service_view(ps.push(p@), true));
    }
    s
}

/// Applies one property node to the install section.
fn apply_install_prop(t: InstallSection, p: &PropNode, Ghost(ps): Ghost<Seq<PropView>>) -> (r:
    InstallSection)
    requires
        t@ == spec_install_view(ps, true),
    ensures
        r@ == spec_install_view(ps.push(p@), true),
{
    proof {
        lemma_props_with_push(ps, p@, Rule::Comment);
        lemma_props_with_push(ps, p@, Rule::WantedBy);
        lemma_props_with_push(ps, p@, Rule::RequiredBy);
        lemma_props_with_push(ps, p@, Rule::Alias);
        lemma_props_with_push(ps, p@, Rule::Also);
        lemma_props_with_push(ps, p@, Rule::DefaultInstance);
    }
    let mut t = t;
    match p.rule {
        Rule::Comment => {
            t.comments = append_list(t.comments, &p.span);
        },
        Rule::WantedBy => {
            t.wanted_by = Some(p.span.clone());
        },
        Rule::RequiredBy => {
            t.required_by = Some(p.span.clone());
        },
        Rule::Alias => {
            t.alias = Some(p.span.clone());
        },
        Rule::Also => {
            t.also = Some(p.span.clone());
        },
        Rule::DefaultInstance => {
            t.default_instance = Some(p.span.clone());
        },
        _ => {},
    }
    proof {
        assert(t@ =~~= spec_install_view(ps.push(p@), true));
    }
    t
}

/// A new section carrying heading `h` extends the model exactly by its
/// heading.
pub proof fn lemma_head_present_push(secs: Seq<SectionView>, s: SectionView, h: Seq<u8>)
    ensures
        spec_head_present(secs.push(s), h) == (spec_head_present(secs, h) || s.head == h),
{
    if s.head == h {
        assert(secs.push(s)[secs.len() as int].head == h);
    }
    if spec_head_present(secs, h) {
        let j = choose|j: int| 0 <= j < secs.len() && (#[trigger] secs[j]).head == h;
        assert(secs.push(s)[j].head == h);
    }
    if spec_head_present(secs.push(s), h) && s.head != h {
        let j = choose|j: int|
            0 <= j < secs.push(s).len() && (#[trigger] secs.push(s)[j]).head == h;
        assert(secs[j].head == h);
    }
}

/// Walks the parse tree and builds the model: a single linear pass, one
/// dispatch per property node, unknown sections and rule kinds skipped.
#[verifier::loop_isolation(false)]
pub fn map(tree: &FileNode) -> (f: SystemdFile)
    ensures
        f@ == spec_map(tree@),
{
    let ghost secs = tree@;
    let mut f = SystemdFile::default();
    proof {
        assert(secs.take(0) =~= Seq::<SectionView>::empty());
        assert(props_of(Seq::<SectionView>::empty(), unit_head()) =~= Seq::<PropView>::empty());
        assert(f@ =~~= spec_map(secs.take(0)));
    }
    let mut i: usize = 0;
    while i < tree.sections.len()
        invariant
            0 <= i <= tree.sections@.len(),
            f@ == spec_map(secs.take(i as int)),
        decreases tree.sections@.len() - i,
    {
        let ghost pre = secs.take(i as int);
        proof {
            assert(secs.take(i + 1) =~= pre.push(secs[i as int]));
            lemma_props_of_push(pre, secs[i as int], unit_head());
            lemma_props_of_push(pre, secs[i as int], service_head());
            lemma_props_of_push(pre, secs[i as int], install_head());
            lemma_head_present_push(pre, secs[i as int], unit_head());
            lemma_head_present_push(pre, secs[i as int], service_head());
            lemma_head_present_push(pre, secs[i as int], install_head());
            lemma_heads();
        }
        let sec = &tree.sections[i];
        proof {
            assert(sec@ == secs[i as int]);
        }
        let st = section_type_of(&sec.head);
        match st {
            None => {
                proof {
                    assert(f@ =~~= spec_map(secs.take(i + 1)));
                }
            },
            Some(SectionType::Unit(_)) => {
                f.unit.head = sec.head.clone();
                let ghost base = props_of(pre, unit_head());
                proof {
                    assert(base + sec@.props.take(0) =~= base);
                    assert(f@.unit =~~= spec_unit_view(base + sec@.props.take(0), true));
                }
                let mut j: usize = 0;
                while j < sec.props.len()
                    invariant
                        0 <= j <= sec.props@.len(),
                        f@.unit == spec_unit_view(base + sec@.props.take(j as int), true),
                        f@.service == spec_map(pre).service,
                        f@.install == spec_map(pre).install,
                    decreases sec.props@.len() - j,
                {
                    proof {
                        assert(base + sec@.props.take(j + 1) =~= (base + sec@.props.take(
                            j as int,
                        )).push(sec@.props[j as int]));
                        assert(sec.props@[j as int]@ == sec@.props[j as int]);
                    }
                    f.unit = apply_unit_prop(
                        f.unit,
                        &sec.props[j],
                        Ghost(base + sec@.props.take(j as int)),
                    );
                    j = j + 1;
                }
                proof {
                    assert(base + sec@.props.take(j as int) =~= base + sec@.props);
                    assert(f@ =~~= spec_map(secs.take(i + 1)));
                }
            },
            Some(SectionType::Service(_)) => {
                f.service.head = sec.head.clone();
                let ghost base = props_of(pre, service_head());
                proof {
                    assert(base + sec@.props.take(0) =~= base);
                    assert(f@.service =~~= spec_service_view(base + sec@.props.take(0), true));
                }
                let mut j: usize = 0;
                while j < sec.props.len()
                    invariant
                        0 <= j <= sec.props@.len(),
                        f@.service == spec_service_view(base + sec@.props.take(j as int), true),
                        f@.unit == spec_map(pre).unit,
                        f@.install == spec_map(pre).install,
                    decreases sec.props@.len() - j,
                {
                    proof {
                        assert(base + sec@.props.take(j + 1) =~= (base + sec@.props.take(
                            j as int,
                        )).push(sec@.props[j as int]));
                        assert(sec.props@[j as int]@ == sec@.props[j as int]);
                    }
                    f.service = apply_service_prop(
                        f.service,
                        &sec.props[j],
                        Ghost(base + sec@.props.take(j as int)),
                    );
                    j = j + 1;
                }
                proof {
                    assert(base + sec@.props.take(j as int) =~= base + sec@.props);
                    assert(f@ =~~= spec_map(secs.take(i + 1)));
                }
            },
            Some(SectionType::Install(_)) => {
                f.install.head = sec.head.clone();
                let ghost base = props_of(pre, install_head());
                proof {
                    assert(base + sec@.props.take(0) =~= base);
                    assert(f@.install =~~= spec_install_view(base + sec@.props.take(0), true));
                }
                let mut j: usize = 0;
                while j < sec.props.len()
                    invariant
                        0 <= j <= sec.props@.len(),
                        f@.install == spec_install_view(base + sec@.props.take(j as int), true),
                        f@.unit == spec_map(pre).unit,
                        f@.service == spec_map(pre).service,
                    decreases sec.props@.len() - j,
                {
                    proof {
                        assert(base + sec@.props.take(j + 1) =~= (base + sec@.props.take(
                            j as int,
                        )).push(sec@.props[j as int]));
                        assert(sec.props@[j as int]@ == sec@.props[j as int]);
                    }
                    f.install = apply_install_prop(
                        f.install,
                        &sec.props[j],
                        Ghost(base + sec@.props.take(j as int)),
                    );
                    j = j + 1;
                }
                proof {
                    assert(base + sec@.props.take(j as int) =~= base + sec@.props);
                    assert(f@ =~~= spec_map(secs.take(i + 1)));
                }
            },
        }
        i = i + 1;
    }
    proof {
        assert(secs.take(i as int) =~= secs);
    }
    f
}

} // verus!
