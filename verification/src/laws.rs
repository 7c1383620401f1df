//! The library's laws, stated and proved over the same spec functions
//! that the executable contracts use: the text round trip, the policies
//! of the three field kinds, and the tolerance for unknown rule kinds.

use vstd::prelude::*;
use crate::grammar::{
    Rule, PropView, SectionView, NL, is_space_byte, spec_is_blank, spec_is_comment,
    spec_is_heading, spec_is_directive, spec_eq_pos, lemma_eq_pos, spec_key_of, spec_line_ok,
    spec_line_rule, key_exec_start, spec_split_lines,
    lemma_split_lines_props, spec_sections_step, spec_sections_from,
    lemma_sections_from_concat, spec_tree, spec_heading_before, spec_line_valid_at,
    spec_lines_valid, spec_valid, unit_head, service_head, install_head, lemma_heads,
};
use crate::mapper::{
    props_with, lemma_props_with_push, lemma_props_with_concat, spec_last_span, spec_singleton,
    spec_list, spec_split_ws_acc, spec_split_ws, spec_exec_start, lemma_exec_start_push,
    props_of, lemma_props_of_push, lemma_props_of_concat, lemma_head_present_push,
    spec_head_present, spec_unit_view,
    spec_service_view, spec_install_view, spec_map, opt_items,
};
use crate::render::{
    SP, spec_unlines, opt_line,
    nonempty_line, spec_join_sp, joined_line, spec_unit_lines,
    spec_service_tail_lines, spec_service_lines, spec_install_lines, spec_render_lines,
    spec_render,
};
use crate::schema::{
    UnitSectionView, ServiceSectionView, InstallSectionView, SystemdFileView,
};

verus! {

/// A usable token: non-empty, and free of spaces and line terminators.
pub open spec fn token_ok(t: Seq<u8>) -> bool {
    t.len() > 0 && forall|k: int|
        0 <= k < t.len() ==> !is_space_byte(#[trigger] t[k]) && t[k] != NL
}

/// Every token of the sequence is usable.
pub open spec fn tokens_ok(ts: Seq<Seq<u8>>) -> bool {
    forall|i: int| 0 <= i < ts.len() ==> token_ok(#[trigger] ts[i])
}

/// Whitespace splitting yields usable tokens.
pub proof fn lemma_split_ws_acc_tokens(l: Seq<u8>, cur: Seq<u8>)
    requires
        forall|k: int| 0 <= k < l.len() ==> #[trigger] l[k] != NL,
        forall|k: int| 0 <= k < cur.len() ==> !is_space_byte(#[trigger] cur[k]) && cur[k] != NL,
    ensures
        tokens_ok(spec_split_ws_acc(l, cur)),
    decreases l.len(),
{
    if l.len() == 0 {
    } else if is_space_byte(l[0]) {
        if cur.len() == 0 {
            lemma_split_ws_acc_tokens(l.drop_first(), cur);
        } else {
            lemma_split_ws_acc_tokens(l.drop_first(), Seq::empty());
            let rest = spec_split_ws_acc(l.drop_first(), Seq::<u8>::empty());
            assert forall|i: int| 0 <= i < (seq![cur] + rest).len() implies token_ok(
                #[trigger] (seq![cur] + rest)[i],
            ) by {
                if i == 0 {
                    assert((seq![cur] + rest)[0] == cur);
                } else {
                    assert((seq![cur] + rest)[i] == rest[i - 1]);
                }
            }
        }
    } else {
        lemma_split_ws_acc_tokens(l.drop_first(), cur.push(l[0]));
    }
}

/// Splitting walks straight through a space-free prefix, growing the
/// current token.
pub proof fn lemma_split_ws_acc_consume(t: Seq<u8>, rest: Seq<u8>, cur: Seq<u8>)
    requires
        forall|k: int| 0 <= k < t.len() ==> !is_space_byte(#[trigger] t[k]),
    ensures
        spec_split_ws_acc(t + rest, cur) == spec_split_ws_acc(rest, cur + t),
    decreases t.len(),
{
    if t.len() == 0 {
        assert(t + rest =~= rest);
        assert(cur + t =~= cur);
    } else {
        assert((t + rest)[0] == t[0]);
        assert((t + rest).drop_first() =~= t.drop_first() + rest);
        assert(cur.push(t[0]) + t.drop_first() =~= cur + t);
        lemma_split_ws_acc_consume(t.drop_first(), rest, cur.push(t[0]));
    }
}

/// The first token that splitting emits extends the token already begun.
pub proof fn lemma_split_ws_acc_first(l: Seq<u8>, cur: Seq<u8>)
    requires
        cur.len() > 0,
    ensures
        spec_split_ws_acc(l, cur).len() > 0,
        spec_split_ws_acc(l, cur)[0].len() >= cur.len(),
        spec_split_ws_acc(l, cur)[0].take(cur.len() as int) == cur,
    decreases l.len(),
{
    if l.len() == 0 {
        assert(spec_split_ws_acc(l, cur)[0] == cur);
        assert(cur.take(cur.len() as int) =~= cur);
    } else if is_space_byte(l[0]) {
        let rest = spec_split_ws_acc(l.drop_first(), Seq::<u8>::empty());
        assert((seq![cur] + rest)[0] == cur);
        assert(cur.take(cur.len() as int) =~= cur);
    } else {
        lemma_split_ws_acc_first(l.drop_first(), cur.push(l[0]));
        let f0 = spec_split_ws_acc(l.drop_first(), cur.push(l[0]))[0];
        assert(f0.take(cur.len() as int) =~= cur) by {
            assert(f0.take((cur.len() + 1) as int) == cur.push(l[0]));
            assert(forall|k: int|
                0 <= k < cur.len() ==> f0[k] == #[trigger] cur.push(l[0])[k]);
        }
    }
}

/// Splitting the joined tokens gives the tokens back.
pub proof fn lemma_split_join(ts: Seq<Seq<u8>>)
    requires
        forall|i: int|
            0 <= i < ts.len() ==> (#[trigger] ts[i]).len() > 0 && forall|k: int|
                0 <= k < ts[i].len() ==> !is_space_byte(#[trigger] ts[i][k]),
    ensures
        spec_split_ws(spec_join_sp(ts)) == ts,
    decreases ts.len(),
{
    if ts.len() == 0 {
    } else if ts.len() == 1 {
        assert(spec_join_sp(ts) == ts[0]);
        assert(ts[0] =~= ts[0] + Seq::<u8>::empty());
        lemma_split_ws_acc_consume(ts[0], Seq::empty(), Seq::empty());
        assert(Seq::<u8>::empty() + ts[0] =~= ts[0]);
        assert(spec_split_ws_acc(Seq::<u8>::empty(), ts[0]) =~= seq![ts[0]]);
        assert(seq![ts[0]] =~~= ts);
    } else {
        let tail = ts.drop_first();
        assert(forall|i: int|
            0 <= i < tail.len() ==> #[trigger] tail[i] == ts[i + 1]);
        lemma_split_join(tail);
        let j = spec_join_sp(ts);
        assert(j == ts[0] + seq![SP] + spec_join_sp(tail));
        assert(j =~= ts[0] + (seq![SP] + spec_join_sp(tail)));
        lemma_split_ws_acc_consume(ts[0], seq![SP] + spec_join_sp(tail), Seq::empty());
        assert(Seq::<u8>::empty() + ts[0] =~= ts[0]);
        let after = seq![SP] + spec_join_sp(tail);
        assert(after[0] == SP);
        assert(is_space_byte(after[0]));
        assert(after.drop_first() =~= spec_join_sp(tail));
        assert(spec_split_ws_acc(after, ts[0]) == seq![ts[0]] + spec_split_ws(spec_join_sp(tail)));
        assert(seq![ts[0]] + tail =~~= ts);
    }
}

/// Joined usable tokens contain no line terminator.
pub proof fn lemma_join_sp_no_nl(ts: Seq<Seq<u8>>)
    requires
        tokens_ok(ts),
    ensures
        forall|k: int|
            0 <= k < spec_join_sp(ts).len() ==> #[trigger] spec_join_sp(ts)[k] != NL,
    decreases ts.len(),
{
    if ts.len() == 0 {
    } else if ts.len() == 1 {
        assert(spec_join_sp(ts) == ts[0]);
        assert(token_ok(ts[0]));
    } else {
        let tail = ts.drop_first();
        assert(forall|i: int|
            0 <= i < tail.len() ==> #[trigger] tail[i] == ts[i + 1]);
        lemma_join_sp_no_nl(tail);
        assert(token_ok(ts[0]));
        assert(forall|k: int|
            0 <= k < spec_join_sp(ts).len() ==> #[trigger] spec_join_sp(ts)[k] != NL) by {
            let j = spec_join_sp(ts);
            assert(j == ts[0] + seq![SP] + spec_join_sp(tail));
        }
    }
}


/// Splitting a line that starts with a non-space byte yields a token.
pub proof fn lemma_split_ws_nonempty(l: Seq<u8>)
    requires
        l.len() > 0,
        !is_space_byte(l[0]),
    ensures
        spec_split_ws(l).len() > 0,
        spec_split_ws(l)[0].len() >= 1,
        spec_split_ws(l)[0][0] == l[0],
{
    assert(l =~= l.take(1) + l.skip(1));
    assert(forall|k: int| 0 <= k < l.take(1).len() ==> !is_space_byte(#[trigger] l.take(1)[k]));
    lemma_split_ws_acc_consume(l.take(1), l.skip(1), Seq::empty());
    assert(Seq::<u8>::empty() + l.take(1) =~= l.take(1));
    lemma_split_ws_acc_first(l.skip(1), l.take(1));
    assert(spec_split_ws(l)[0].take(1) == l.take(1));
    assert(spec_split_ws(l)[0][0] == spec_split_ws(l)[0].take(1)[0]);
}

/// What must hold of the `exec_start` token sequence for the round trip:
/// joining the tokens gives back a directive line that the grammar
/// classifies as `ExecStart` again and that splits into the same tokens.
pub open spec fn exec_tokens_wf(ts: Seq<Seq<u8>>) -> bool {
    ts.len() == 0 || {
        let j = spec_join_sp(ts);
        &&& tokens_ok(ts)
        &&& spec_is_directive(j)
        &&& !spec_is_comment(j)
        &&& spec_line_rule(j) == Rule::ExecStart
        &&& spec_split_ws(j) == ts
        &&& forall|k: int| 0 <= k < j.len() ==> #[trigger] j[k] != NL
    }
}

/// The tokens of an `ExecStart` directive line survive the round trip:
/// they are usable, and their joined line is again an `ExecStart`
/// directive that splits into them.
pub proof fn lemma_exec_start_line(l: Seq<u8>)
    requires
        spec_is_directive(l),
        spec_line_rule(l) == Rule::ExecStart,
        forall|k: int| 0 <= k < l.len() ==> #[trigger] l[k] != NL,
    ensures
        spec_split_ws(l).len() > 0,
        exec_tokens_wf(spec_split_ws(l)),
{
    let ts = spec_split_ws(l);
    lemma_eq_pos(l);
    assert(spec_key_of(l) == key_exec_start());
    assert(spec_eq_pos(l) == 9) by {
        assert(l.take(spec_eq_pos(l)).len() == spec_eq_pos(l));
        assert(key_exec_start().len() == 9);
    }
    let p = l.take(10);
    assert(p.len() == 10);
    assert(forall|k: int| 0 <= k < 9 ==> #[trigger] p[k] == spec_key_of(l)[k]);
    assert(p[9] == '=' as u8);
    assert(forall|k: int| 0 <= k < p.len() ==> !is_space_byte(#[trigger] p[k]));
    assert(l =~= p + l.skip(10));
    lemma_split_ws_acc_consume(p, l.skip(10), Seq::empty());
    assert(Seq::<u8>::empty() + p =~= p);
    lemma_split_ws_acc_first(l.skip(10), p);
    assert(ts.len() > 0);
    assert(ts[0].len() >= 10);
    assert(ts[0].take(10) == p);
    lemma_split_ws_acc_tokens(l, Seq::empty());
    assert(tokens_ok(ts));
    let j = spec_join_sp(ts);
    assert(forall|k: int| 0 <= k < ts[0].len() ==> #[trigger] j[k] == ts[0][k]) by {
        if ts.len() == 1 {
            assert(j == ts[0]);
        } else {
            assert(j == ts[0] + seq![SP] + spec_join_sp(ts.drop_first()));
        }
    }
    assert(j.len() >= ts[0].len());
    assert(forall|k: int| 0 <= k < 10 ==> #[trigger] j[k] == p[k]);
    lemma_eq_pos(j);
    assert(spec_eq_pos(j) == 9) by {
        assert(j[9] == '=' as u8);
        assert(spec_eq_pos(j) <= 9);
        if spec_eq_pos(j) < 9 {
            assert(j[spec_eq_pos(j)] == p[spec_eq_pos(j)]);
            assert(p[spec_eq_pos(j)] == key_exec_start()[spec_eq_pos(j)]);
        }
    }
    assert(spec_key_of(j) =~= key_exec_start()) by {
        assert(spec_key_of(j).len() == 9);
        assert(forall|k: int| 0 <= k < 9 ==> #[trigger] spec_key_of(j)[k] == j[k]);
    }
    assert(spec_is_directive(j)) by {
        assert(j[0] == 'E' as u8);
    }
    assert(!spec_is_comment(j));
    assert(spec_line_rule(j) == Rule::ExecStart);
    assert(forall|i: int|
        0 <= i < ts.len() ==> (#[trigger] ts[i]).len() > 0 && forall|k: int|
            0 <= k < ts[i].len() ==> !is_space_byte(#[trigger] ts[i][k])) by {
        assert(tokens_ok(ts));
        assert(forall|i: int| 0 <= i < ts.len() ==> token_ok(#[trigger] ts[i]));
    }
    lemma_split_join(ts);
    lemma_join_sp_no_nl(ts);
}


/// A captured span as the mapper stores it: a comment or directive line
/// without terminators, classified as the rule of its field.
pub open spec fn wf_prop_span(x: Seq<u8>, r: Rule) -> bool {
    &&& spec_is_comment(x) || spec_is_directive(x)
    &&& spec_line_rule(x) == r
    &&& forall|k: int| 0 <= k < x.len() ==> #[trigger] x[k] != NL
}

/// A well-formed optional singleton field.
pub open spec fn wf_opt_span(o: Option<Seq<u8>>, r: Rule) -> bool {
    match o {
        None => true,
        Some(x) => wf_prop_span(x, r),
    }
}

/// A well-formed optional list field: present means non-empty.
pub open spec fn wf_opt_list(o: Option<Seq<Seq<u8>>>, r: Rule) -> bool {
    match o {
        None => true,
        Some(s) => s.len() > 0 && forall|i: int|
            0 <= i < s.len() ==> wf_prop_span(#[trigger] s[i], r),
    }
}

/// A well-formed plain captured field: empty, or one captured line.
pub open spec fn wf_plain(x: Seq<u8>, r: Rule) -> bool {
    x.len() == 0 || wf_prop_span(x, r)
}

/// A well-formed unit section: the default, or one built from captured
/// lines under the unit heading.
pub open spec fn wf_unit(u: UnitSectionView) -> bool {
    if u.head.len() == 0 {
        u == UnitSectionView::empty()
    } else {
        &&& u.head == unit_head()
        &&& wf_opt_list(u.comments, Rule::Comment)
        &&& wf_plain(u.description, Rule::Description)
        &&& wf_opt_list(u.after, Rule::After)
        &&& wf_opt_list(u.documentation, Rule::Documentation)
        &&& wf_opt_list(u.requires_list, Rule::Requires)
        &&& wf_opt_list(u.wants, Rule::Wants)
        &&& wf_opt_span(u.binds_to, Rule::BindsTo)
        &&& wf_opt_list(u.before, Rule::Before)
        &&& wf_opt_list(u.conflicts, Rule::Conflicts)
        &&& wf_opt_span(u.condition, Rule::Condition)
        &&& wf_opt_list(u.assert_list, Rule::Assert)
        &&& wf_opt_span(u.condition_path_exists, Rule::ConditionPathExists)
    }
}

/// A well-formed service section.
pub open spec fn wf_service(s: ServiceSectionView) -> bool {
    if s.head.len() == 0 {
        s == ServiceSectionView::empty()
    } else {
        &&& s.head == service_head()
        &&& wf_opt_list(s.comments, Rule::Comment)
        &&& wf_plain(s.service_type, Rule::ServiceType)
        &&& exec_tokens_wf(s.exec_start)
        &&& wf_opt_span(s.start_pre, Rule::StartPre)
        &&& wf_opt_span(s.start_post, Rule::StartPost)
        &&& wf_opt_list(s.reload, Rule::Reload)
        &&& wf_opt_span(s.exec_stop, Rule::ExecStop)
        &&& wf_opt_span(s.stop_post, Rule::StopPost)
        &&& wf_opt_span(s.restart_sec, Rule::RestartSec)
        &&& wf_opt_span(s.restart, Rule::Restart)
        &&& wf_opt_span(s.timeout_sec, Rule::TimeoutSec)
        &&& wf_opt_span(s.environment_file, Rule::EnvironmentFile)
        &&& wf_opt_span(s.kill_mode, Rule::KillMode)
        &&& wf_opt_span(s.restart_prevent_exit_status, Rule::RestartPreventExitStatus)
        &&& wf_opt_span(s.runtime_directory, Rule::RuntimeDirectory)
        &&& wf_opt_span(s.runtime_directory_mode, Rule::RuntimeDirectoryMode)
        &&& wf_opt_span(s.environment, Rule::Environment)
        &&& wf_opt_span(s.standard_output, Rule::StandardOutput)
        &&& wf_opt_span(s.limit_no_file, Rule::LimitNoFile)
    }
}

/// A well-formed install section.
pub open spec fn wf_install(t: InstallSectionView) -> bool {
    if t.head.len() == 0 {
        t == InstallSectionView::empty()
    } else {
        &&& t.head == install_head()
        &&& wf_opt_list(t.comments, Rule::Comment)
        &&& wf_opt_span(t.wanted_by, Rule::WantedBy)
        &&& wf_opt_span(t.required_by, Rule::RequiredBy)
        &&& wf_opt_span(t.alias, Rule::Alias)
        &&& wf_opt_span(t.also, Rule::Also)
        &&& wf_opt_span(t.default_instance, Rule::DefaultInstance)
    }
}

/// A model as the mapper builds it from some valid text.
pub open spec fn wf_model(m: SystemdFileView) -> bool {
    wf_unit(m.unit) && wf_service(m.service) && wf_install(m.install)
}

/// A well-formed parse-tree property node.
pub open spec fn wf_prop(p: PropView) -> bool {
    wf_prop_span(p.span, p.rule)
}

/// A well-formed parse-tree section node.
pub open spec fn wf_section(s: SectionView) -> bool {
    &&& spec_is_heading(s.head)
    &&& forall|k: int| 0 <= k < s.head.len() ==> #[trigger] s.head[k] != NL
    &&& forall|i: int| 0 <= i < s.props.len() ==> wf_prop(#[trigger] s.props[i])
}

/// A well-formed parse tree.
pub open spec fn wf_tree(secs: Seq<SectionView>) -> bool {
    forall|i: int| 0 <= i < secs.len() ==> wf_section(#[trigger] secs[i])
}

/// A line that may become a section's property.
pub open spec fn line_no_nl(l: Seq<u8>) -> bool {
    forall|k: int| 0 <= k < l.len() ==> #[trigger] l[k] != NL
}

/// Folding acceptable, terminator-free lines onto a well-formed tree
/// keeps the tree well-formed.
pub proof fn lemma_sections_from_wf(acc: Seq<SectionView>, lines: Seq<Seq<u8>>)
    requires
        wf_tree(acc),
        forall|i: int| 0 <= i < lines.len() ==> spec_line_ok(#[trigger] lines[i]),
        forall|i: int| 0 <= i < lines.len() ==> line_no_nl(#[trigger] lines[i]),
    ensures
        wf_tree(spec_sections_from(acc, lines)),
    decreases lines.len(),
{
    if lines.len() == 0 {
    } else {
        lemma_sections_from_wf(acc, lines.drop_last());
        let pre = spec_sections_from(acc, lines.drop_last());
        let l = lines.last();
        assert(spec_line_ok(l));
        assert(line_no_nl(l));
        let stepped = spec_sections_step(pre, l);
        if spec_is_blank(l) {
        } else if spec_is_heading(l) {
            assert forall|i: int| 0 <= i < stepped.len() implies wf_section(
                #[trigger] stepped[i],
            ) by {
                if i < pre.len() {
                    assert(stepped[i] == pre[i]);
                } else {
                    assert(stepped[i] == SectionView { head: l, props: Seq::empty() });
                }
            }
        } else if pre.len() == 0 {
        } else {
            let last = pre.last();
            let p = PropView { rule: spec_line_rule(l), span: l };
            assert(wf_prop(p));
            let updated = SectionView { head: last.head, props: last.props.push(p) };
            assert(wf_section(updated)) by {
                assert(wf_section(last));
                assert(forall|i: int|
                    0 <= i < updated.props.len() ==> wf_prop(#[trigger] updated.props[i]));
            }
            assert forall|i: int| 0 <= i < stepped.len() implies wf_section(
                #[trigger] stepped[i],
            ) by {
                if i < pre.len() - 1 {
                    assert(stepped[i] == pre[i]);
                } else {
                    assert(stepped[i] == updated);
                }
            }
        }
    }
}

/// Every property node of a well-formed tree's property streams is
/// well-formed.
pub open spec fn all_props_wf(ps: Seq<PropView>) -> bool {
    forall|i: int| 0 <= i < ps.len() ==> wf_prop(#[trigger] ps[i])
}

/// The property stream of any heading inherits well-formedness.
pub proof fn lemma_props_of_wf(secs: Seq<SectionView>, h: Seq<u8>)
    requires
        wf_tree(secs),
    ensures
        all_props_wf(props_of(secs, h)),
    decreases secs.len(),
{
    if secs.len() == 0 {
    } else {
        assert(wf_tree(secs.drop_last())) by {
            assert(forall|i: int|
                0 <= i < secs.len() - 1 ==> secs.drop_last()[i] == #[trigger] secs[i]);
        }
        lemma_props_of_wf(secs.drop_last(), h);
        if secs.last().head == h {
            let a = props_of(secs.drop_last(), h);
            let b = secs.last().props;
            assert(wf_section(secs.last()));
            assert forall|i: int| 0 <= i < (a + b).len() implies wf_prop(
                #[trigger] (a + b)[i],
            ) by {
                if i < a.len() {
                    assert((a + b)[i] == a[i]);
                } else {
                    assert((a + b)[i] == b[i - a.len()]);
                }
            }
        }
    }
}

/// A heading never seen contributes no properties.
pub proof fn lemma_absent_head_no_props(secs: Seq<SectionView>, h: Seq<u8>)
    requires
        !spec_head_present(secs, h),
    ensures
        props_of(secs, h) == Seq::<PropView>::empty(),
    decreases secs.len(),
{
    if secs.len() == 0 {
    } else {
        assert(!spec_head_present(secs.drop_last(), h)) by {
            if spec_head_present(secs.drop_last(), h) {
                let j = choose|j: int|
                    0 <= j < secs.drop_last().len() && (#[trigger] secs.drop_last()[j]).head == h;
                assert(secs[j].head == h);
            }
        }
        assert(secs.last().head != h) by {
            if secs.last().head == h {
                assert(secs[secs.len() - 1].head == h);
            }
        }
        lemma_absent_head_no_props(secs.drop_last(), h);
    }
}

/// The spans selected for a rule out of well-formed properties are
/// well-formed captured lines of that rule.
pub proof fn lemma_props_with_wf(ps: Seq<PropView>, r: Rule)
    requires
        all_props_wf(ps),
    ensures
        forall|i: int|
            0 <= i < props_with(ps, r).len() ==> wf_prop_span(
                #[trigger] props_with(ps, r)[i],
                r,
            ),
    decreases ps.len(),
{
    if ps.len() == 0 {
    } else {
        assert(all_props_wf(ps.drop_last())) by {
            assert(forall|i: int|
                0 <= i < ps.len() - 1 ==> ps.drop_last()[i] == #[trigger] ps[i]);
        }
        lemma_props_with_wf(ps.drop_last(), r);
        let w = props_with(ps.drop_last(), r);
        if ps.last().rule == r {
            assert(wf_prop(ps.last()));
            assert forall|i: int| 0 <= i < w.push(ps.last().span).len() implies wf_prop_span(
                #[trigger] w.push(ps.last().span)[i],
                r,
            ) by {
                if i < w.len() {
                    assert(w.push(ps.last().span)[i] == w[i]);
                }
            }
        }
    }
}

/// Over well-formed properties the tokenized singleton is exactly the
/// split of the first `ExecStart` span.
pub proof fn lemma_exec_start_first(ps: Seq<PropView>)
    requires
        all_props_wf(ps),
    ensures
        spec_exec_start(ps) == ({
            let w = props_with(ps, Rule::ExecStart);
            if w.len() == 0 {
                Seq::<Seq<u8>>::empty()
            } else {
                spec_split_ws(w[0])
            }
        }),
    decreases ps.len(),
{
    if ps.len() == 0 {
    } else {
        assert(all_props_wf(ps.drop_last())) by {
            assert(forall|i: int|
                0 <= i < ps.len() - 1 ==> ps.drop_last()[i] == #[trigger] ps[i]);
        }
        lemma_exec_start_first(ps.drop_last());
        lemma_props_with_wf(ps.drop_last(), Rule::ExecStart);
        let w0 = props_with(ps.drop_last(), Rule::ExecStart);
        let p = ps.last();
        if p.rule == Rule::ExecStart {
            if w0.len() == 0 {
                assert(w0.push(p.span)[0] == p.span);
            } else {
                assert(wf_prop_span(w0[0], Rule::ExecStart));
                assert(spec_is_directive(w0[0])) by {
                    assert(!spec_is_comment(w0[0]) || spec_line_rule(w0[0]) == Rule::Comment);
                }
                lemma_exec_start_line(w0[0]);
                assert(spec_exec_start(ps.drop_last()).len() > 0);
                assert(w0.push(p.span)[0] == w0[0]);
            }
        }
    }
}

/// The mapper only ever builds well-formed models.
pub proof fn lemma_map_wf(secs: Seq<SectionView>)
    requires
        wf_tree(secs),
    ensures
        wf_model(spec_map(secs)),
{
    lemma_heads();
    lemma_props_of_wf(secs, unit_head());
    lemma_props_of_wf(secs, service_head());
    lemma_props_of_wf(secs, install_head());
    let pu = props_of(secs, unit_head());
    let psv = props_of(secs, service_head());
    let pi = props_of(secs, install_head());
    lemma_props_with_wf(pu, Rule::Comment);
    lemma_props_with_wf(pu, Rule::Description);
    lemma_props_with_wf(pu, Rule::After);
    lemma_props_with_wf(pu, Rule::Documentation);
    lemma_props_with_wf(pu, Rule::Requires);
    lemma_props_with_wf(pu, Rule::Wants);
    lemma_props_with_wf(pu, Rule::BindsTo);
    lemma_props_with_wf(pu, Rule::Before);
    lemma_props_with_wf(pu, Rule::Conflicts);
    lemma_props_with_wf(pu, Rule::Condition);
    lemma_props_with_wf(pu, Rule::Assert);
    lemma_props_with_wf(pu, Rule::ConditionPathExists);
    lemma_props_with_wf(psv, Rule::Comment);
    lemma_props_with_wf(psv, Rule::ServiceType);
    lemma_props_with_wf(psv, Rule::ExecStart);
    lemma_props_with_wf(psv, Rule::StartPre);
    lemma_props_with_wf(psv, Rule::StartPost);
    lemma_props_with_wf(psv, Rule::Reload);
    lemma_props_with_wf(psv, Rule::ExecStop);
    lemma_props_with_wf(psv, Rule::StopPost);
    lemma_props_with_wf(psv, Rule::RestartSec);
    lemma_props_with_wf(psv, Rule::Restart);
    lemma_props_with_wf(psv, Rule::TimeoutSec);
    lemma_props_with_wf(psv, Rule::EnvironmentFile);
    lemma_props_with_wf(psv, Rule::KillMode);
    lemma_props_with_wf(psv, Rule::RestartPreventExitStatus);
    lemma_props_with_wf(psv, Rule::RuntimeDirectory);
    lemma_props_with_wf(psv, Rule::RuntimeDirectoryMode);
    lemma_props_with_wf(psv, Rule::Environment);
    lemma_props_with_wf(psv, Rule::StandardOutput);
    lemma_props_with_wf(psv, Rule::LimitNoFile);
    lemma_props_with_wf(pi, Rule::Comment);
    lemma_props_with_wf(pi, Rule::WantedBy);
    lemma_props_with_wf(pi, Rule::RequiredBy);
    lemma_props_with_wf(pi, Rule::Alias);
    lemma_props_with_wf(pi, Rule::Also);
    lemma_props_with_wf(pi, Rule::DefaultInstance);
    lemma_exec_start_first(psv);
    let w = props_with(psv, Rule::ExecStart);
    if w.len() > 0 {
        assert(wf_prop_span(w[0], Rule::ExecStart));
        assert(spec_is_directive(w[0])) by {
            assert(!spec_is_comment(w[0]) || spec_line_rule(w[0]) == Rule::Comment);
        }
        lemma_exec_start_line(w[0]);
    }
    if !spec_head_present(secs, unit_head()) {
        lemma_absent_head_no_props(secs, unit_head());
        assert(spec_map(secs).unit =~~= UnitSectionView::empty());
    }
    if !spec_head_present(secs, service_head()) {
        lemma_absent_head_no_props(secs, service_head());
        assert(spec_map(secs).service =~~= ServiceSectionView::empty());
    }
    if !spec_head_present(secs, install_head()) {
        lemma_absent_head_no_props(secs, install_head());
        assert(spec_map(secs).install =~~= InstallSectionView::empty());
    }
}


/// Splitting after a terminator-free line and its terminator peels off
/// exactly that line.
pub proof fn lemma_split_line_prepend(l: Seq<u8>, t: Seq<u8>)
    requires
        line_no_nl(l),
    ensures
        spec_split_lines(l + seq![NL] + t) == seq![l] + spec_split_lines(t),
    decreases l.len(),
{
    if l.len() == 0 {
        let w = l + seq![NL] + t;
        assert(w[0] == NL);
        assert(w.drop_first() =~= t);
        assert(spec_split_lines(w) == seq![Seq::<u8>::empty()] + spec_split_lines(t));
        assert(seq![Seq::<u8>::empty()] =~~= seq![l]);
    } else {
        let w = l + seq![NL] + t;
        assert(w[0] == l[0]);
        assert(l[0] != NL);
        assert(w.drop_first() =~= l.drop_first() + seq![NL] + t);
        assert(line_no_nl(l.drop_first())) by {
            assert(forall|k: int|
                0 <= k < l.len() - 1 ==> #[trigger] l.drop_first()[k] == l[k + 1]);
        }
        lemma_split_line_prepend(l.drop_first(), t);
        let rest = spec_split_lines(l.drop_first() + seq![NL] + t);
        assert(rest[0] == l.drop_first());
        assert(seq![l[0]] + rest[0] =~= l);
        assert(rest.drop_first() =~= spec_split_lines(t));
        assert(spec_split_lines(w) =~~= seq![l] + spec_split_lines(t));
    }
}

/// Splitting flattened lines restores them, plus the empty part after
/// the last terminator.
pub proof fn lemma_split_unlines(ls: Seq<Seq<u8>>)
    requires
        forall|i: int| 0 <= i < ls.len() ==> line_no_nl(#[trigger] ls[i]),
    ensures
        spec_split_lines(spec_unlines(ls)) == ls + seq![Seq::<u8>::empty()],
    decreases ls.len(),
{
    if ls.len() == 0 {
        assert(spec_split_lines(spec_unlines(ls)) == seq![Seq::<u8>::empty()]);
        assert(ls + seq![Seq::<u8>::empty()] =~~= seq![Seq::<u8>::empty()]);
    } else {
        assert(forall|i: int|
            0 <= i < ls.len() - 1 ==> #[trigger] ls.drop_first()[i] == ls[i + 1]);
        lemma_split_unlines(ls.drop_first());
        assert(spec_unlines(ls) =~= ls[0] + seq![NL] + spec_unlines(ls.drop_first()));
        lemma_split_line_prepend(ls[0], spec_unlines(ls.drop_first()));
        assert(seq![ls[0]] + (ls.drop_first() + seq![Seq::<u8>::empty()]) =~~= ls + seq![
            Seq::<u8>::empty()
        ]);
    }
}

/// A sequence of lines that can stand under a heading.
pub open spec fn all_prop_lines(ls: Seq<Seq<u8>>) -> bool {
    forall|i: int|
        0 <= i < ls.len() ==> (spec_is_comment(#[trigger] ls[i]) || spec_is_directive(ls[i]))
            && line_no_nl(ls[i])
}

/// A rendered section block: empty, or a heading followed by its
/// property lines.
pub open spec fn block_ok(ls: Seq<Seq<u8>>) -> bool {
    ls.len() == 0 || {
        &&& spec_is_heading(ls[0])
        &&& line_no_nl(ls[0])
        &&& all_prop_lines(ls.drop_first())
    }
}

/// Three well-shaped section blocks followed by the trailing empty part
/// form a valid sequence of lines.
pub proof fn lemma_blocks_valid(a: Seq<Seq<u8>>, b: Seq<Seq<u8>>, c: Seq<Seq<u8>>)
    requires
        block_ok(a),
        block_ok(b),
        block_ok(c),
    ensures
        spec_lines_valid(a + b + c + seq![Seq::<u8>::empty()]),
{
    let w = a + b + c + seq![Seq::<u8>::empty()];
    assert forall|i: int| 0 <= i < w.len() implies spec_line_valid_at(w, i) by {
        if i < a.len() {
            assert(w[i] == a[i]);
            if i == 0 {
                assert(spec_is_heading(w[0]));
            } else {
                assert(a[i] == a.drop_first()[i - 1]);
                assert(w[0] == a[0]);
                assert(spec_is_heading(w[0]));
                assert(spec_heading_before(w, i));
            }
        } else if i < a.len() + b.len() {
            assert(w[i] == b[i - a.len()]);
            if i == a.len() {
                assert(spec_is_heading(w[i]));
            } else {
                assert(b[i - a.len()] == b.drop_first()[i - a.len() - 1]);
                assert(w[a.len() as int] == b[0]);
                assert(spec_is_heading(w[a.len() as int]));
                assert(spec_heading_before(w, i));
            }
        } else if i < a.len() + b.len() + c.len() {
            assert(w[i] == c[i - a.len() - b.len()]);
            if i == a.len() + b.len() {
                assert(spec_is_heading(w[i]));
            } else {
                assert(c[i - a.len() - b.len()] == c.drop_first()[i - a.len() - b.len() - 1]);
                assert(w[a.len() + b.len() as int] == c[0]);
                assert(spec_is_heading(w[a.len() + b.len() as int]));
                assert(spec_heading_before(w, i));
            }
        } else {
            assert(w[i] =~= Seq::<u8>::empty());
            assert(spec_is_blank(w[i]));
        }
    }
}

/// The property nodes that a sequence of captured lines becomes.
pub open spec fn props_from_lines(ls: Seq<Seq<u8>>) -> Seq<PropView>
    decreases ls.len(),
{
    if ls.len() == 0 {
        Seq::empty()
    } else {
        props_from_lines(ls.drop_last()).push(
            PropView { rule: spec_line_rule(ls.last()), span: ls.last() },
        )
    }
}

/// `props_from_lines` distributes over concatenation.
pub proof fn lemma_props_from_lines_concat(a: Seq<Seq<u8>>, b: Seq<Seq<u8>>)
    ensures
        props_from_lines(a + b) == props_from_lines(a) + props_from_lines(b),
    decreases b.len(),
{
    if b.len() == 0 {
        assert(a + b =~= a);
        assert(props_from_lines(a) + props_from_lines(b) =~= props_from_lines(a));
    } else {
        lemma_props_from_lines_concat(a, b.drop_last());
        assert((a + b).drop_last() =~= a + b.drop_last());
        assert((a + b).last() == b.last());
        assert((props_from_lines(a) + props_from_lines(b.drop_last())).push(
            PropView { rule: spec_line_rule(b.last()), span: b.last() },
        ) =~= props_from_lines(a) + props_from_lines(b.drop_last()).push(
            PropView { rule: spec_line_rule(b.last()), span: b.last() },
        ));
    }
}

/// Folding property lines appends their nodes to the latest section.
pub proof fn lemma_sections_from_props(acc: Seq<SectionView>, pl: Seq<Seq<u8>>)
    requires
        acc.len() > 0,
        all_prop_lines(pl),
    ensures
        spec_sections_from(acc, pl) == acc.update(
            acc.len() - 1,
            SectionView {
                head: acc.last().head,
                props: acc.last().props + props_from_lines(pl),
            },
        ),
    decreases pl.len(),
{
    if pl.len() == 0 {
        assert(acc.last().props + props_from_lines(pl) =~= acc.last().props);
        assert(acc.update(acc.len() - 1, acc.last()) =~~= acc);
    } else {
        assert(all_prop_lines(pl.drop_last())) by {
            assert(forall|i: int|
                0 <= i < pl.len() - 1 ==> #[trigger] pl.drop_last()[i] == pl[i]);
        }
        lemma_sections_from_props(acc, pl.drop_last());
        let mid = acc.update(
            acc.len() - 1,
            SectionView {
                head: acc.last().head,
                props: acc.last().props + props_from_lines(pl.drop_last()),
            },
        );
        let l = pl.last();
        assert(spec_is_comment(l) || spec_is_directive(l));
        assert(!spec_is_blank(l));
        assert(!spec_is_heading(l));
        assert(mid.len() > 0);
        let p = PropView { rule: spec_line_rule(l), span: l };
        assert(spec_sections_from(acc, pl) == mid.update(
            mid.len() - 1,
            SectionView { head: mid.last().head, props: mid.last().props.push(p) },
        ));
        assert(mid.last().props.push(p) =~= acc.last().props + props_from_lines(pl)) by {
            assert(props_from_lines(pl) == props_from_lines(pl.drop_last()).push(p));
            assert((acc.last().props + props_from_lines(pl.drop_last())).push(p) =~= acc.last().props
                + props_from_lines(pl.drop_last()).push(p));
        }
        assert(spec_sections_from(acc, pl) =~~= acc.update(
            acc.len() - 1,
            SectionView { head: acc.last().head, props: acc.last().props + props_from_lines(pl) },
        ));
    }
}

/// Folding one whole section block pushes one new section node.
pub proof fn lemma_sections_from_block(acc: Seq<SectionView>, head: Seq<u8>, pl: Seq<Seq<u8>>)
    requires
        spec_is_heading(head),
        all_prop_lines(pl),
    ensures
        spec_sections_from(acc, seq![head] + pl) == acc.push(
            SectionView { head, props: props_from_lines(pl) },
        ),
    decreases pl.len(),
{
    lemma_sections_from_concat(acc, seq![head], pl);
    assert(spec_sections_from(acc, seq![head]) == acc.push(
        SectionView { head, props: Seq::empty() },
    )) by {
        assert(seq![head].drop_last() =~= Seq::<Seq<u8>>::empty());
        assert(spec_sections_from(acc, Seq::<Seq<u8>>::empty()) == acc);
        assert(seq![head].last() == head);
        assert(!spec_is_blank(head)) by {
            assert(!is_space_byte(head[0]));
        }
    }
    let acc2 = acc.push(SectionView { head, props: Seq::empty() });
    lemma_sections_from_props(acc2, pl);
    assert(acc2.last().props + props_from_lines(pl) =~= props_from_lines(pl));
    assert(acc2.update(
        acc2.len() - 1,
        SectionView { head, props: props_from_lines(pl) },
    ) =~~= acc.push(SectionView { head, props: props_from_lines(pl) }));
}

/// A blank trailing part leaves the tree unchanged.
pub proof fn lemma_sections_from_blank(acc: Seq<SectionView>)
    ensures
        spec_sections_from(acc, seq![Seq::<u8>::empty()]) == acc,
{
    assert(seq![Seq::<u8>::empty()].drop_last() =~= Seq::<Seq<u8>>::empty());
    assert(spec_sections_from(acc, Seq::<Seq<u8>>::empty()) == acc);
    assert(spec_is_blank(seq![Seq::<u8>::empty()].last()));
}

/// Selecting by rule out of nodes built from lines of one single rule
/// gives all of them or none of them.
pub proof fn lemma_props_with_hom(ls: Seq<Seq<u8>>, r: Rule, r2: Rule)
    requires
        forall|i: int| 0 <= i < ls.len() ==> spec_line_rule(#[trigger] ls[i]) == r,
    ensures
        props_with(props_from_lines(ls), r2) == if r == r2 && ls.len() > 0 {
            ls
        } else {
            Seq::<Seq<u8>>::empty()
        },
    decreases ls.len(),
{
    if ls.len() == 0 {
    } else {
        assert(forall|i: int|
            0 <= i < ls.len() - 1 ==> #[trigger] ls.drop_last()[i] == ls[i]);
        lemma_props_with_hom(ls.drop_last(), r, r2);
        let p = PropView { rule: spec_line_rule(ls.last()), span: ls.last() };
        lemma_props_with_push(props_from_lines(ls.drop_last()), p, r2);
        if r == r2 {
            assert(props_with(props_from_lines(ls), r2) =~~= ls);
        }
    }
}

/// Appending nodes built from lines of one rule extends the selection
/// of exactly that rule.
pub proof fn lemma_props_with_append_hom(ps: Seq<PropView>, ls: Seq<Seq<u8>>, r: Rule)
    requires
        forall|i: int| 0 <= i < ls.len() ==> spec_line_rule(#[trigger] ls[i]) == r,
    ensures
        forall|r2: Rule|
            #[trigger] props_with(ps + props_from_lines(ls), r2) == if r == r2 && ls.len() > 0 {
                props_with(ps, r2) + ls
            } else {
                props_with(ps, r2)
            },
{
    assert forall|r2: Rule|
        #[trigger] props_with(ps + props_from_lines(ls), r2) == if r == r2 && ls.len() > 0 {
            props_with(ps, r2) + ls
        } else {
            props_with(ps, r2)
        } by {
        lemma_props_with_concat(ps, props_from_lines(ls), r2);
        lemma_props_with_hom(ls, r, r2);
        if !(r == r2 && ls.len() > 0) {
            assert(props_with(ps, r2) + Seq::<Seq<u8>>::empty() =~= props_with(ps, r2));
        }
    }
}

/// Lines carrying well-formed captured spans build well-formed nodes.
pub proof fn lemma_props_from_lines_wf(ls: Seq<Seq<u8>>)
    requires
        all_prop_lines(ls),
    ensures
        all_props_wf(props_from_lines(ls)),
    decreases ls.len(),
{
    if ls.len() == 0 {
    } else {
        assert(forall|i: int|
            0 <= i < ls.len() - 1 ==> #[trigger] ls.drop_last()[i] == ls[i]);
        lemma_props_from_lines_wf(ls.drop_last());
        let pre = props_from_lines(ls.drop_last());
        let p = PropView { rule: spec_line_rule(ls.last()), span: ls.last() };
        assert(wf_prop(p));
        assert forall|i: int| 0 <= i < pre.push(p).len() implies wf_prop(
            #[trigger] pre.push(p)[i],
        ) by {
            if i < pre.len() {
                assert(pre.push(p)[i] == pre[i]);
            }
        }
    }
}


/// Lines that can stand under a heading, concatenated, still can.
pub proof fn lemma_all_prop_lines_concat(a: Seq<Seq<u8>>, b: Seq<Seq<u8>>)
    requires
        all_prop_lines(a),
        all_prop_lines(b),
    ensures
        all_prop_lines(a + b),
{
    assert forall|i: int| 0 <= i < (a + b).len() implies (spec_is_comment(#[trigger] (a + b)[i])
        || spec_is_directive((a + b)[i])) && line_no_nl((a + b)[i]) by {
        if i < a.len() {
            assert((a + b)[i] == a[i]);
        } else {
            assert((a + b)[i] == b[i - a.len()]);
        }
    }
}

/// The property lines the unit section renders to.
pub open spec fn unit_prop_lines(u: UnitSectionView) -> Seq<Seq<u8>> {
    opt_items(u.comments) + nonempty_line(u.description) + opt_items(u.after) + opt_items(u.documentation) + opt_items(u.requires_list) + opt_items(u.wants) + opt_line(u.binds_to) + opt_items(u.before) + opt_items(u.conflicts) + opt_line(u.condition) + opt_items(u.assert_list) + opt_line(u.condition_path_exists)
}

/// What each rule selects out of the nodes the unit section's
/// rendered lines rebuild.
#[verifier::rlimit(100)]
pub proof fn lemma_unit_props_with(u: UnitSectionView)
    requires
        wf_unit(u),
        u.head.len() > 0,
    ensures
        all_prop_lines(unit_prop_lines(u)),
        props_with(props_from_lines(unit_prop_lines(u)), Rule::Comment) == opt_items(u.comments),
        props_with(props_from_lines(unit_prop_lines(u)), Rule::Description) == nonempty_line(u.description),
        props_with(props_from_lines(unit_prop_lines(u)), Rule::After) == opt_items(u.after),
        props_with(props_from_lines(unit_prop_lines(u)), Rule::Documentation) == opt_items(u.documentation),
        props_with(props_from_lines(unit_prop_lines(u)), Rule::Requires) == opt_items(u.requires_list),
        props_with(props_from_lines(unit_prop_lines(u)), Rule::Wants) == opt_items(u.wants),
        props_with(props_from_lines(unit_prop_lines(u)), Rule::BindsTo) == opt_line(u.binds_to),
        props_with(props_from_lines(unit_prop_lines(u)), Rule::Before) == opt_items(u.before),
        props_with(props_from_lines(unit_prop_lines(u)), Rule::Conflicts) == opt_items(u.conflicts),
        props_with(props_from_lines(unit_prop_lines(u)), Rule::Condition) == opt_line(u.condition),
        props_with(props_from_lines(unit_prop_lines(u)), Rule::Assert) == opt_items(u.assert_list),
        props_with(props_from_lines(unit_prop_lines(u)), Rule::ConditionPathExists) == opt_line(u.condition_path_exists),
{
    let c01 = opt_items(u.comments);
    let c02 = nonempty_line(u.description);
    let c03 = opt_items(u.after);
    let c04 = opt_items(u.documentation);
    let c05 = opt_items(u.requires_list);
    let c06 = opt_items(u.wants);
    let c07 = opt_line(u.binds_to);
    let c08 = opt_items(u.before);
    let c09 = opt_items(u.conflicts);
    let c10 = opt_line(u.condition);
    let c11 = opt_items(u.assert_list);
    let c12 = opt_line(u.condition_path_exists);
    assert(forall|i: int| 0 <= i < c01.len() ==> spec_line_rule(#[trigger] c01[i]) == Rule::Comment);
    assert(all_prop_lines(c01));
    assert(forall|i: int| 0 <= i < c02.len() ==> spec_line_rule(#[trigger] c02[i]) == Rule::Description);
    assert(all_prop_lines(c02));
    assert(forall|i: int| 0 <= i < c03.len() ==> spec_line_rule(#[trigger] c03[i]) == Rule::After);
    assert(all_prop_lines(c03));
    assert(forall|i: int| 0 <= i < c04.len() ==> spec_line_rule(#[trigger] c04[i]) == Rule::Documentation);
    assert(all_prop_lines(c04));
    assert(forall|i: int| 0 <= i < c05.len() ==> spec_line_rule(#[trigger] c05[i]) == Rule::Requires);
    assert(all_prop_lines(c05));
    assert(forall|i: int| 0 <= i < c06.len() ==> spec_line_rule(#[trigger] c06[i]) == Rule::Wants);
    assert(all_prop_lines(c06));
    assert(forall|i: int| 0 <= i < c07.len() ==> spec_line_rule(#[trigger] c07[i]) == Rule::BindsTo);
    assert(all_prop_lines(c07));
    assert(forall|i: int| 0 <= i < c08.len() ==> spec_line_rule(#[trigger] c08[i]) == Rule::Before);
    assert(all_prop_lines(c08));
    assert(forall|i: int| 0 <= i < c09.len() ==> spec_line_rule(#[trigger] c09[i]) == Rule::Conflicts);
    assert(all_prop_lines(c09));
    assert(forall|i: int| 0 <= i < c10.len() ==> spec_line_rule(#[trigger] c10[i]) == Rule::Condition);
    assert(all_prop_lines(c10));
    assert(forall|i: int| 0 <= i < c11.len() ==> spec_line_rule(#[trigger] c11[i]) == Rule::Assert);
    assert(all_prop_lines(c11));
    assert(forall|i: int| 0 <= i < c12.len() ==> spec_line_rule(#[trigger] c12[i]) == Rule::ConditionPathExists);
    assert(all_prop_lines(c12));
    let pl = unit_prop_lines(u);
    let d01 = c01;
    let d02 = d01 + c02;
    let d03 = d02 + c03;
    let d04 = d03 + c04;
    let d05 = d04 + c05;
    let d06 = d05 + c06;
    let d07 = d06 + c07;
    let d08 = d07 + c08;
    let d09 = d08 + c09;
    let d10 = d09 + c10;
    let d11 = d10 + c11;
    let d12 = d11 + c12;
    assert(pl == d12);
    lemma_all_prop_lines_concat(d01, c02);
    lemma_all_prop_lines_concat(d02, c03);
    lemma_all_prop_lines_concat(d03, c04);
    lemma_all_prop_lines_concat(d04, c05);
    lemma_all_prop_lines_concat(d05, c06);
    lemma_all_prop_lines_concat(d06, c07);
    lemma_all_prop_lines_concat(d07, c08);
    lemma_all_prop_lines_concat(d08, c09);
    lemma_all_prop_lines_concat(d09, c10);
    lemma_all_prop_lines_concat(d10, c11);
    lemma_all_prop_lines_concat(d11, c12);
    lemma_props_from_lines_concat(d01, c02);
    lemma_props_from_lines_concat(d02, c03);
    lemma_props_from_lines_concat(d03, c04);
    lemma_props_from_lines_concat(d04, c05);
    lemma_props_from_lines_concat(d05, c06);
    lemma_props_from_lines_concat(d06, c07);
    lemma_props_from_lines_concat(d07, c08);
    lemma_props_from_lines_concat(d08, c09);
    lemma_props_from_lines_concat(d09, c10);
    lemma_props_from_lines_concat(d10, c11);
    lemma_props_from_lines_concat(d11, c12);
    lemma_props_with_append_hom(Seq::<PropView>::empty(), c01, Rule::Comment);
    assert(Seq::<PropView>::empty() + props_from_lines(c01) =~= props_from_lines(d01));
    lemma_props_with_append_hom(props_from_lines(d01), c02, Rule::Description);
    lemma_props_with_append_hom(props_from_lines(d02), c03, Rule::After);
    lemma_props_with_append_hom(props_from_lines(d03), c04, Rule::Documentation);
    lemma_props_with_append_hom(props_from_lines(d04), c05, Rule::Requires);
    lemma_props_with_append_hom(props_from_lines(d05), c06, Rule::Wants);
    lemma_props_with_append_hom(props_from_lines(d06), c07, Rule::BindsTo);
    lemma_props_with_append_hom(props_from_lines(d07), c08, Rule::Before);
    lemma_props_with_append_hom(props_from_lines(d08), c09, Rule::Conflicts);
    lemma_props_with_append_hom(props_from_lines(d09), c10, Rule::Condition);
    lemma_props_with_append_hom(props_from_lines(d10), c11, Rule::Assert);
    lemma_props_with_append_hom(props_from_lines(d11), c12, Rule::ConditionPathExists);
    assert(forall|r2: Rule| #[trigger] props_with(Seq::<PropView>::empty(), r2) == Seq::<Seq<u8>>::empty());
    assert(props_with(props_from_lines(pl), Rule::Comment) =~~= c01);
    assert(props_with(props_from_lines(pl), Rule::Description) =~~= c02);
    assert(props_with(props_from_lines(pl), Rule::After) =~~= c03);
    assert(props_with(props_from_lines(pl), Rule::Documentation) =~~= c04);
    assert(props_with(props_from_lines(pl), Rule::Requires) =~~= c05);
    assert(props_with(props_from_lines(pl), Rule::Wants) =~~= c06);
    assert(props_with(props_from_lines(pl), Rule::BindsTo) =~~= c07);
    assert(props_with(props_from_lines(pl), Rule::Before) =~~= c08);
    assert(props_with(props_from_lines(pl), Rule::Conflicts) =~~= c09);
    assert(props_with(props_from_lines(pl), Rule::Condition) =~~= c10);
    assert(props_with(props_from_lines(pl), Rule::Assert) =~~= c11);
    assert(props_with(props_from_lines(pl), Rule::ConditionPathExists) =~~= c12);
}

/// Concatenation of line sequences is associative.
pub proof fn lemma_lines_assoc(a: Seq<Seq<u8>>, b: Seq<Seq<u8>>, c: Seq<Seq<u8>>)
    ensures
        (a + b) + c == a + (b + c),
{
    assert((a + b) + c =~= a + (b + c));
}

/// The unit section's rendered lines are its heading before its
/// property lines.
pub proof fn lemma_unit_lines_shape(u: UnitSectionView)
    requires
        u.head.len() > 0,
    ensures
        spec_unit_lines(u) == seq![u.head] + unit_prop_lines(u),
{
    let h = seq![u.head];
    let c01 = opt_items(u.comments);
    let c02 = nonempty_line(u.description);
    let c03 = opt_items(u.after);
    let c04 = opt_items(u.documentation);
    let c05 = opt_items(u.requires_list);
    let c06 = opt_items(u.wants);
    let c07 = opt_line(u.binds_to);
    let c08 = opt_items(u.before);
    let c09 = opt_items(u.conflicts);
    let c10 = opt_line(u.condition);
    let c11 = opt_items(u.assert_list);
    let c12 = opt_line(u.condition_path_exists);
    let d01 = c01;
    let d02 = d01 + c02;
    let d03 = d02 + c03;
    let d04 = d03 + c04;
    let d05 = d04 + c05;
    let d06 = d05 + c06;
    let d07 = d06 + c07;
    let d08 = d07 + c08;
    let d09 = d08 + c09;
    let d10 = d09 + c10;
    let d11 = d10 + c11;
    let d12 = d11 + c12;
    let p01 = h + c01;
    lemma_lines_assoc(h, d01, c02);
    let p02 = p01 + c02;
    assert(p02 == h + d02);
    lemma_lines_assoc(h, d02, c03);
    let p03 = p02 + c03;
    assert(p03 == h + d03);
    lemma_lines_assoc(h, d03, c04);
    let p04 = p03 + c04;
    assert(p04 == h + d04);
    lemma_lines_assoc(h, d04, c05);
    let p05 = p04 + c05;
    assert(p05 == h + d05);
    lemma_lines_assoc(h, d05, c06);
    let p06 = p05 + c06;
    assert(p06 == h + d06);
    lemma_lines_assoc(h, d06, c07);
    let p07 = p06 + c07;
    assert(p07 == h + d07);
    lemma_lines_assoc(h, d07, c08);
    let p08 = p07 + c08;
    assert(p08 == h + d08);
    lemma_lines_assoc(h, d08, c09);
    let p09 = p08 + c09;
    assert(p09 == h + d09);
    lemma_lines_assoc(h, d09, c10);
    let p10 = p09 + c10;
    assert(p10 == h + d10);
    lemma_lines_assoc(h, d10, c11);
    let p11 = p10 + c11;
    assert(p11 == h + d11);
    lemma_lines_assoc(h, d11, c12);
    let p12 = p11 + c12;
    assert(p12 == h + d12);
    assert(spec_unit_lines(u) == p12);
    assert(unit_prop_lines(u) == d12);
}

/// The service section's rendered lines are its heading before its
/// property lines.
#[verifier::rlimit(60)]
pub proof fn lemma_service_lines_shape(s: ServiceSectionView)
    requires
        s.head.len() > 0,
    ensures
        spec_service_lines(s) == seq![s.head] + service_prop_lines(s),
{
    let h = seq![s.head];
    let c01 = opt_items(s.comments);
    let c02 = nonempty_line(s.service_type);
    let c03 = joined_line(s.exec_start);
    let c04 = opt_line(s.start_pre);
    let c05 = opt_line(s.start_post);
    let c06 = opt_items(s.reload);
    let c07 = opt_line(s.exec_stop);
    let c08 = opt_line(s.stop_post);
    let c09 = opt_line(s.restart_sec);
    let c10 = opt_line(s.restart);
    let c11 = opt_line(s.timeout_sec);
    let c12 = opt_line(s.environment_file);
    let c13 = opt_line(s.kill_mode);
    let c14 = opt_line(s.restart_prevent_exit_status);
    let c15 = opt_line(s.runtime_directory);
    let c16 = opt_line(s.runtime_directory_mode);
    let c17 = opt_line(s.environment);
    let c18 = opt_line(s.standard_output);
    let c19 = opt_line(s.limit_no_file);
    let d01 = c01;
    let d02 = d01 + c02;
    let d03 = d02 + c03;
    let d04 = d03 + c04;
    let d05 = d04 + c05;
    let d06 = d05 + c06;
    let d07 = d06 + c07;
    let d08 = d07 + c08;
    let d09 = d08 + c09;
    let d10 = d09 + c10;
    let d11 = d10 + c11;
    let d12 = d11 + c12;
    let d13 = d12 + c13;
    let d14 = d13 + c14;
    let d15 = d14 + c15;
    let d16 = d15 + c16;
    let d17 = d16 + c17;
    let d18 = d17 + c18;
    let d19 = d18 + c19;
    let e01 = c07;
    let e02 = e01 + c08;
    let e03 = e02 + c09;
    let e04 = e03 + c10;
    let e05 = e04 + c11;
    let e06 = e05 + c12;
    let e07 = e06 + c13;
    let e08 = e07 + c14;
    let e09 = e08 + c15;
    let e10 = e09 + c16;
    let e11 = e10 + c17;
    let e12 = e11 + c18;
    let e13 = e12 + c19;
    assert(spec_service_tail_lines(s) == e13);
    assert(d06 + e01 == d07);
    lemma_lines_assoc(d06, e01, c08);
    assert(d06 + e02 == d08);
    lemma_lines_assoc(d06, e02, c09);
    assert(d06 + e03 == d09);
    lemma_lines_assoc(d06, e03, c10);
    assert(d06 + e04 == d10);
    lemma_lines_assoc(d06, e04, c11);
    assert(d06 + e05 == d11);
    lemma_lines_assoc(d06, e05, c12);
    assert(d06 + e06 == d12);
    lemma_lines_assoc(d06, e06, c13);
    assert(d06 + e07 == d13);
    lemma_lines_assoc(d06, e07, c14);
    assert(d06 + e08 == d14);
    lemma_lines_assoc(d06, e08, c15);
    assert(d06 + e09 == d15);
    lemma_lines_assoc(d06, e09, c16);
    assert(d06 + e10 == d16);
    lemma_lines_assoc(d06, e10, c17);
    assert(d06 + e11 == d17);
    lemma_lines_assoc(d06, e11, c18);
    assert(d06 + e12 == d18);
    lemma_lines_assoc(d06, e12, c19);
    assert(d06 + e13 == d19);
    let p01 = h + c01;
    lemma_lines_assoc(h, d01, c02);
    let p02 = p01 + c02;
    assert(p02 == h + d02);
    lemma_lines_assoc(h, d02, c03);
    let p03 = p02 + c03;
    assert(p03 == h + d03);
    lemma_lines_assoc(h, d03, c04);
    let p04 = p03 + c04;
    assert(p04 == h + d04);
    lemma_lines_assoc(h, d04, c05);
    let p05 = p04 + c05;
    assert(p05 == h + d05);
    lemma_lines_assoc(h, d05, c06);
    let p06 = p05 + c06;
    assert(p06 == h + d06);
    lemma_lines_assoc(h, d06, e13);
    let p07 = p06 + e13;
    assert(p07 == h + (d06 + e13));
    assert(p07 == h + d19);
    assert(spec_service_lines(s) == p07);
    assert(service_prop_lines(s) == d19);
}


/// A present, well-formed unit section is rebuilt exactly from the
/// lines it renders to.
#[verifier::rlimit(100)]
pub proof fn lemma_unit_rebuild(u: UnitSectionView)
    requires
        wf_unit(u),
        u.head.len() > 0,
    ensures
        all_prop_lines(unit_prop_lines(u)),
        spec_unit_lines(u) == seq![u.head] + unit_prop_lines(u),
        spec_unit_view(props_from_lines(unit_prop_lines(u)), true) == u,
{
    lemma_unit_props_with(u);
    lemma_unit_lines_shape(u);
    let pl = unit_prop_lines(u);
    let ps = props_from_lines(pl);

    assert(spec_list(ps, Rule::Comment) == u.comments);
    assert(spec_last_span(ps, Rule::Description) == u.description);
    assert(spec_list(ps, Rule::After) == u.after);
    assert(spec_list(ps, Rule::Documentation) == u.documentation);
    assert(spec_list(ps, Rule::Requires) == u.requires_list);
    assert(spec_list(ps, Rule::Wants) == u.wants);
    assert(spec_singleton(ps, Rule::BindsTo) == u.binds_to);
    assert(spec_list(ps, Rule::Before) == u.before);
    assert(spec_list(ps, Rule::Conflicts) == u.conflicts);
    assert(spec_singleton(ps, Rule::Condition) == u.condition);
    assert(spec_list(ps, Rule::Assert) == u.assert_list);
    assert(spec_singleton(ps, Rule::ConditionPathExists) == u.condition_path_exists);
    assert(spec_unit_view(ps, true) =~= u);
}

/// The property lines the service section renders to.
pub open spec fn service_prop_lines(s: ServiceSectionView) -> Seq<Seq<u8>> {
    opt_items(s.comments) + nonempty_line(s.service_type) + joined_line(s.exec_start) + opt_line(s.start_pre) + opt_line(s.start_post) + opt_items(s.reload) + opt_line(s.exec_stop) + opt_line(s.stop_post) + opt_line(s.restart_sec) + opt_line(s.restart) + opt_line(s.timeout_sec) + opt_line(s.environment_file) + opt_line(s.kill_mode) + opt_line(s.restart_prevent_exit_status) + opt_line(s.runtime_directory) + opt_line(s.runtime_directory_mode) + opt_line(s.environment) + opt_line(s.standard_output) + opt_line(s.limit_no_file)
}

/// What each rule selects out of the nodes the service section's
/// rendered lines rebuild.
#[verifier::rlimit(100)]
pub proof fn lemma_service_props_with(s: ServiceSectionView)
    requires
        wf_service(s),
        s.head.len() > 0,
    ensures
        all_prop_lines(service_prop_lines(s)),
        props_with(props_from_lines(service_prop_lines(s)), Rule::Comment) == opt_items(s.comments),
        props_with(props_from_lines(service_prop_lines(s)), Rule::ServiceType) == nonempty_line(s.service_type),
        props_with(props_from_lines(service_prop_lines(s)), Rule::ExecStart) == joined_line(s.exec_start),
        props_with(props_from_lines(service_prop_lines(s)), Rule::StartPre) == opt_line(s.start_pre),
        props_with(props_from_lines(service_prop_lines(s)), Rule::StartPost) == opt_line(s.start_post),
        props_with(props_from_lines(service_prop_lines(s)), Rule::Reload) == opt_items(s.reload),
        props_with(props_from_lines(service_prop_lines(s)), Rule::ExecStop) == opt_line(s.exec_stop),
        props_with(props_from_lines(service_prop_lines(s)), Rule::StopPost) == opt_line(s.stop_post),
        props_with(props_from_lines(service_prop_lines(s)), Rule::RestartSec) == opt_line(s.restart_sec),
        props_with(props_from_lines(service_prop_lines(s)), Rule::Restart) == opt_line(s.restart),
        props_with(props_from_lines(service_prop_lines(s)), Rule::TimeoutSec) == opt_line(s.timeout_sec),
        props_with(props_from_lines(service_prop_lines(s)), Rule::EnvironmentFile) == opt_line(s.environment_file),
        props_with(props_from_lines(service_prop_lines(s)), Rule::KillMode) == opt_line(s.kill_mode),
        props_with(props_from_lines(service_prop_lines(s)), Rule::RestartPreventExitStatus) == opt_line(s.restart_prevent_exit_status),
        props_with(props_from_lines(service_prop_lines(s)), Rule::RuntimeDirectory) == opt_line(s.runtime_directory),
        props_with(props_from_lines(service_prop_lines(s)), Rule::RuntimeDirectoryMode) == opt_line(s.runtime_directory_mode),
        props_with(props_from_lines(service_prop_lines(s)), Rule::Environment) == opt_line(s.environment),
        props_with(props_from_lines(service_prop_lines(s)), Rule::StandardOutput) == opt_line(s.standard_output),
        props_with(props_from_lines(service_prop_lines(s)), Rule::LimitNoFile) == opt_line(s.limit_no_file),
{
    let c01 = opt_items(s.comments);
    let c02 = nonempty_line(s.service_type);
    let c03 = joined_line(s.exec_start);
    let c04 = opt_line(s.start_pre);
    let c05 = opt_line(s.start_post);
    let c06 = opt_items(s.reload);
    let c07 = opt_line(s.exec_stop);
    let c08 = opt_line(s.stop_post);
    let c09 = opt_line(s.restart_sec);
    let c10 = opt_line(s.restart);
    let c11 = opt_line(s.timeout_sec);
    let c12 = opt_line(s.environment_file);
    let c13 = opt_line(s.kill_mode);
    let c14 = opt_line(s.restart_prevent_exit_status);
    let c15 = opt_line(s.runtime_directory);
    let c16 = opt_line(s.runtime_directory_mode);
    let c17 = opt_line(s.environment);
    let c18 = opt_line(s.standard_output);
    let c19 = opt_line(s.limit_no_file);
    assert(forall|i: int| 0 <= i < c01.len() ==> spec_line_rule(#[trigger] c01[i]) == Rule::Comment);
    assert(all_prop_lines(c01));
    assert(forall|i: int| 0 <= i < c02.len() ==> spec_line_rule(#[trigger] c02[i]) == Rule::ServiceType);
    assert(all_prop_lines(c02));
    assert(forall|i: int| 0 <= i < c03.len() ==> spec_line_rule(#[trigger] c03[i]) == Rule::ExecStart);
    assert(all_prop_lines(c03));
    assert(forall|i: int| 0 <= i < c04.len() ==> spec_line_rule(#[trigger] c04[i]) == Rule::StartPre);
    assert(all_prop_lines(c04));
    assert(forall|i: int| 0 <= i < c05.len() ==> spec_line_rule(#[trigger] c05[i]) == Rule::StartPost);
    assert(all_prop_lines(c05));
    assert(forall|i: int| 0 <= i < c06.len() ==> spec_line_rule(#[trigger] c06[i]) == Rule::Reload);
    assert(all_prop_lines(c06));
    assert(forall|i: int| 0 <= i < c07.len() ==> spec_line_rule(#[trigger] c07[i]) == Rule::ExecStop);
    assert(all_prop_lines(c07));
    assert(forall|i: int| 0 <= i < c08.len() ==> spec_line_rule(#[trigger] c08[i]) == Rule::StopPost);
    assert(all_prop_lines(c08));
    assert(forall|i: int| 0 <= i < c09.len() ==> spec_line_rule(#[trigger] c09[i]) == Rule::RestartSec);
    assert(all_prop_lines(c09));
    assert(forall|i: int| 0 <= i < c10.len() ==> spec_line_rule(#[trigger] c10[i]) == Rule::Restart);
    assert(all_prop_lines(c10));
    assert(forall|i: int| 0 <= i < c11.len() ==> spec_line_rule(#[trigger] c11[i]) == Rule::TimeoutSec);
    assert(all_prop_lines(c11));
    assert(forall|i: int| 0 <= i < c12.len() ==> spec_line_rule(#[trigger] c12[i]) == Rule::EnvironmentFile);
    assert(all_prop_lines(c12));
    assert(forall|i: int| 0 <= i < c13.len() ==> spec_line_rule(#[trigger] c13[i]) == Rule::KillMode);
    assert(all_prop_lines(c13));
    assert(forall|i: int| 0 <= i < c14.len() ==> spec_line_rule(#[trigger] c14[i]) == Rule::RestartPreventExitStatus);
    assert(all_prop_lines(c14));
    assert(forall|i: int| 0 <= i < c15.len() ==> spec_line_rule(#[trigger] c15[i]) == Rule::RuntimeDirectory);
    assert(all_prop_lines(c15));
    assert(forall|i: int| 0 <= i < c16.len() ==> spec_line_rule(#[trigger] c16[i]) == Rule::RuntimeDirectoryMode);
    assert(all_prop_lines(c16));
    assert(forall|i: int| 0 <= i < c17.len() ==> spec_line_rule(#[trigger] c17[i]) == Rule::Environment);
    assert(all_prop_lines(c17));
    assert(forall|i: int| 0 <= i < c18.len() ==> spec_line_rule(#[trigger] c18[i]) == Rule::StandardOutput);
    assert(all_prop_lines(c18));
    assert(forall|i: int| 0 <= i < c19.len() ==> spec_line_rule(#[trigger] c19[i]) == Rule::LimitNoFile);
    assert(all_prop_lines(c19));
    let pl = service_prop_lines(s);
    let d01 = c01;
    let d02 = d01 + c02;
    let d03 = d02 + c03;
    let d04 = d03 + c04;
    let d05 = d04 + c05;
    let d06 = d05 + c06;
    let d07 = d06 + c07;
    let d08 = d07 + c08;
    let d09 = d08 + c09;
    let d10 = d09 + c10;
    let d11 = d10 + c11;
    let d12 = d11 + c12;
    let d13 = d12 + c13;
    let d14 = d13 + c14;
    let d15 = d14 + c15;
    let d16 = d15 + c16;
    let d17 = d16 + c17;
    let d18 = d17 + c18;
    let d19 = d18 + c19;
    assert(pl == d19);
    lemma_all_prop_lines_concat(d01, c02);
    lemma_all_prop_lines_concat(d02, c03);
    lemma_all_prop_lines_concat(d03, c04);
    lemma_all_prop_lines_concat(d04, c05);
    lemma_all_prop_lines_concat(d05, c06);
    lemma_all_prop_lines_concat(d06, c07);
    lemma_all_prop_lines_concat(d07, c08);
    lemma_all_prop_lines_concat(d08, c09);
    lemma_all_prop_lines_concat(d09, c10);
    lemma_all_prop_lines_concat(d10, c11);
    lemma_all_prop_lines_concat(d11, c12);
    lemma_all_prop_lines_concat(d12, c13);
    lemma_all_prop_lines_concat(d13, c14);
    lemma_all_prop_lines_concat(d14, c15);
    lemma_all_prop_lines_concat(d15, c16);
    lemma_all_prop_lines_concat(d16, c17);
    lemma_all_prop_lines_concat(d17, c18);
    lemma_all_prop_lines_concat(d18, c19);
    lemma_props_from_lines_concat(d01, c02);
    lemma_props_from_lines_concat(d02, c03);
    lemma_props_from_lines_concat(d03, c04);
    lemma_props_from_lines_concat(d04, c05);
    lemma_props_from_lines_concat(d05, c06);
    lemma_props_from_lines_concat(d06, c07);
    lemma_props_from_lines_concat(d07, c08);
    lemma_props_from_lines_concat(d08, c09);
    lemma_props_from_lines_concat(d09, c10);
    lemma_props_from_lines_concat(d10, c11);
    lemma_props_from_lines_concat(d11, c12);
    lemma_props_from_lines_concat(d12, c13);
    lemma_props_from_lines_concat(d13, c14);
    lemma_props_from_lines_concat(d14, c15);
    lemma_props_from_lines_concat(d15, c16);
    lemma_props_from_lines_concat(d16, c17);
    lemma_props_from_lines_concat(d17, c18);
    lemma_props_from_lines_concat(d18, c19);
    lemma_props_with_append_hom(Seq::<PropView>::empty(), c01, Rule::Comment);
    assert(Seq::<PropView>::empty() + props_from_lines(c01) =~= props_from_lines(d01));
    lemma_props_with_append_hom(props_from_lines(d01), c02, Rule::ServiceType);
    lemma_props_with_append_hom(props_from_lines(d02), c03, Rule::ExecStart);
    lemma_props_with_append_hom(props_from_lines(d03), c04, Rule::StartPre);
    lemma_props_with_append_hom(props_from_lines(d04), c05, Rule::StartPost);
    lemma_props_with_append_hom(props_from_lines(d05), c06, Rule::Reload);
    lemma_props_with_append_hom(props_from_lines(d06), c07, Rule::ExecStop);
    lemma_props_with_append_hom(props_from_lines(d07), c08, Rule::StopPost);
    lemma_props_with_append_hom(props_from_lines(d08), c09, Rule::RestartSec);
    lemma_props_with_append_hom(props_from_lines(d09), c10, Rule::Restart);
    lemma_props_with_append_hom(props_from_lines(d10), c11, Rule::TimeoutSec);
    lemma_props_with_append_hom(props_from_lines(d11), c12, Rule::EnvironmentFile);
    lemma_props_with_append_hom(props_from_lines(d12), c13, Rule::KillMode);
    lemma_props_with_append_hom(props_from_lines(d13), c14, Rule::RestartPreventExitStatus);
    lemma_props_with_append_hom(props_from_lines(d14), c15, Rule::RuntimeDirectory);
    lemma_props_with_append_hom(props_from_lines(d15), c16, Rule::RuntimeDirectoryMode);
    lemma_props_with_append_hom(props_from_lines(d16), c17, Rule::Environment);
    lemma_props_with_append_hom(props_from_lines(d17), c18, Rule::StandardOutput);
    lemma_props_with_append_hom(props_from_lines(d18), c19, Rule::LimitNoFile);
    assert(forall|r2: Rule| #[trigger] props_with(Seq::<PropView>::empty(), r2) == Seq::<Seq<u8>>::empty());
    assert(props_with(props_from_lines(pl), Rule::Comment) =~~= c01);
    assert(props_with(props_from_lines(pl), Rule::ServiceType) =~~= c02);
    assert(props_with(props_from_lines(pl), Rule::ExecStart) =~~= c03);
    assert(props_with(props_from_lines(pl), Rule::StartPre) =~~= c04);
    assert(props_with(props_from_lines(pl), Rule::StartPost) =~~= c05);
    assert(props_with(props_from_lines(pl), Rule::Reload) =~~= c06);
    assert(props_with(props_from_lines(pl), Rule::ExecStop) =~~= c07);
    assert(props_with(props_from_lines(pl), Rule::StopPost) =~~= c08);
    assert(props_with(props_from_lines(pl), Rule::RestartSec) =~~= c09);
    assert(props_with(props_from_lines(pl), Rule::Restart) =~~= c10);
    assert(props_with(props_from_lines(pl), Rule::TimeoutSec) =~~= c11);
    assert(props_with(props_from_lines(pl), Rule::EnvironmentFile) =~~= c12);
    assert(props_with(props_from_lines(pl), Rule::KillMode) =~~= c13);
    assert(props_with(props_from_lines(pl), Rule::RestartPreventExitStatus) =~~= c14);
    assert(props_with(props_from_lines(pl), Rule::RuntimeDirectory) =~~= c15);
    assert(props_with(props_from_lines(pl), Rule::RuntimeDirectoryMode) =~~= c16);
    assert(props_with(props_from_lines(pl), Rule::Environment) =~~= c17);
    assert(props_with(props_from_lines(pl), Rule::StandardOutput) =~~= c18);
    assert(props_with(props_from_lines(pl), Rule::LimitNoFile) =~~= c19);
}

/// Over the rebuilt service nodes the tokenized singleton comes back as
/// the tokens themselves.
pub proof fn lemma_service_exec_field(s: ServiceSectionView)
    requires
        all_prop_lines(service_prop_lines(s)),
        exec_tokens_wf(s.exec_start),
        props_with(props_from_lines(service_prop_lines(s)), Rule::ExecStart) == joined_line(
            s.exec_start,
        ),
    ensures
        spec_exec_start(props_from_lines(service_prop_lines(s))) == s.exec_start,
{
    let pl = service_prop_lines(s);
    let ps = props_from_lines(pl);
    lemma_props_from_lines_wf(pl);
    lemma_exec_start_first(ps);
    if s.exec_start.len() > 0 {
        assert(props_with(ps, Rule::ExecStart)[0] == spec_join_sp(s.exec_start));
    }
}

/// A present, well-formed service section is rebuilt exactly from the
/// lines it renders to.
#[verifier::rlimit(100)]
pub proof fn lemma_service_rebuild(s: ServiceSectionView)
    requires
        wf_service(s),
        s.head.len() > 0,
    ensures
        all_prop_lines(service_prop_lines(s)),
        spec_service_lines(s) == seq![s.head] + service_prop_lines(s),
        spec_service_view(props_from_lines(service_prop_lines(s)), true) == s,
{
    lemma_service_props_with(s);
    lemma_service_lines_shape(s);
    lemma_service_exec_field(s);
    let pl = service_prop_lines(s);
    let ps = props_from_lines(pl);
    assert(spec_list(ps, Rule::Comment) == s.comments);
    assert(spec_last_span(ps, Rule::ServiceType) == s.service_type);
    assert(spec_singleton(ps, Rule::StartPre) == s.start_pre);
    assert(spec_singleton(ps, Rule::StartPost) == s.start_post);
    assert(spec_list(ps, Rule::Reload) == s.reload);
    assert(spec_singleton(ps, Rule::ExecStop) == s.exec_stop);
    assert(spec_singleton(ps, Rule::StopPost) == s.stop_post);
    assert(spec_singleton(ps, Rule::RestartSec) == s.restart_sec);
    assert(spec_singleton(ps, Rule::Restart) == s.restart);
    assert(spec_singleton(ps, Rule::TimeoutSec) == s.timeout_sec);
    assert(spec_singleton(ps, Rule::EnvironmentFile) == s.environment_file);
    assert(spec_singleton(ps, Rule::KillMode) == s.kill_mode);
    assert(spec_singleton(ps, Rule::RestartPreventExitStatus) == s.restart_prevent_exit_status);
    assert(spec_singleton(ps, Rule::RuntimeDirectory) == s.runtime_directory);
    assert(spec_singleton(ps, Rule::RuntimeDirectoryMode) == s.runtime_directory_mode);
    assert(spec_singleton(ps, Rule::Environment) == s.environment);
    assert(spec_singleton(ps, Rule::StandardOutput) == s.standard_output);
    assert(spec_singleton(ps, Rule::LimitNoFile) == s.limit_no_file);
    assert(spec_service_view(ps, true) =~= s);
}

/// The property lines the install section renders to.
pub open spec fn install_prop_lines(t: InstallSectionView) -> Seq<Seq<u8>> {
    opt_items(t.comments) + opt_line(t.wanted_by) + opt_line(t.required_by) + opt_line(t.alias) + opt_line(t.also) + opt_line(t.default_instance)
}

/// What each rule selects out of the nodes the install section's
/// rendered lines rebuild.
#[verifier::rlimit(100)]
pub proof fn lemma_install_props_with(t: InstallSectionView)
    requires
        wf_install(t),
        t.head.len() > 0,
    ensures
        all_prop_lines(install_prop_lines(t)),
        props_with(props_from_lines(install_prop_lines(t)), Rule::Comment) == opt_items(t.comments),
        props_with(props_from_lines(install_prop_lines(t)), Rule::WantedBy) == opt_line(t.wanted_by),
        props_with(props_from_lines(install_prop_lines(t)), Rule::RequiredBy) == opt_line(t.required_by),
        props_with(props_from_lines(install_prop_lines(t)), Rule::Alias) == opt_line(t.alias),
        props_with(props_from_lines(install_prop_lines(t)), Rule::Also) == opt_line(t.also),
        props_with(props_from_lines(install_prop_lines(t)), Rule::DefaultInstance) == opt_line(t.default_instance),
{
    let c01 = opt_items(t.comments);
    let c02 = opt_line(t.wanted_by);
    let c03 = opt_line(t.required_by);
    let c04 = opt_line(t.alias);
    let c05 = opt_line(t.also);
    let c06 = opt_line(t.default_instance);
    assert(forall|i: int| 0 <= i < c01.len() ==> spec_line_rule(#[trigger] c01[i]) == Rule::Comment);
    assert(all_prop_lines(c01));
    assert(forall|i: int| 0 <= i < c02.len() ==> spec_line_rule(#[trigger] c02[i]) == Rule::WantedBy);
    assert(all_prop_lines(c02));
    assert(forall|i: int| 0 <= i < c03.len() ==> spec_line_rule(#[trigger] c03[i]) == Rule::RequiredBy);
    assert(all_prop_lines(c03));
    assert(forall|i: int| 0 <= i < c04.len() ==> spec_line_rule(#[trigger] c04[i]) == Rule::Alias);
    assert(all_prop_lines(c04));
    assert(forall|i: int| 0 <= i < c05.len() ==> spec_line_rule(#[trigger] c05[i]) == Rule::Also);
    assert(all_prop_lines(c05));
    assert(forall|i: int| 0 <= i < c06.len() ==> spec_line_rule(#[trigger] c06[i]) == Rule::DefaultInstance);
    assert(all_prop_lines(c06));
    let pl = install_prop_lines(t);
    let d01 = c01;
    let d02 = d01 + c02;
    let d03 = d02 + c03;
    let d04 = d03 + c04;
    let d05 = d04 + c05;
    let d06 = d05 + c06;
    assert(pl == d06);
    lemma_all_prop_lines_concat(d01, c02);
    lemma_all_prop_lines_concat(d02, c03);
    lemma_all_prop_lines_concat(d03, c04);
    lemma_all_prop_lines_concat(d04, c05);
    lemma_all_prop_lines_concat(d05, c06);
    lemma_props_from_lines_concat(d01, c02);
    lemma_props_from_lines_concat(d02, c03);
    lemma_props_from_lines_concat(d03, c04);
    lemma_props_from_lines_concat(d04, c05);
    lemma_props_from_lines_concat(d05, c06);
    lemma_props_with_append_hom(Seq::<PropView>::empty(), c01, Rule::Comment);
    assert(Seq::<PropView>::empty() + props_from_lines(c01) =~= props_from_lines(d01));
    lemma_props_with_append_hom(props_from_lines(d01), c02, Rule::WantedBy);
    lemma_props_with_append_hom(props_from_lines(d02), c03, Rule::RequiredBy);
    lemma_props_with_append_hom(props_from_lines(d03), c04, Rule::Alias);
    lemma_props_with_append_hom(props_from_lines(d04), c05, Rule::Also);
    lemma_props_with_append_hom(props_from_lines(d05), c06, Rule::DefaultInstance);
    assert(forall|r2: Rule| #[trigger] props_with(Seq::<PropView>::empty(), r2) == Seq::<Seq<u8>>::empty());
    assert(props_with(props_from_lines(pl), Rule::Comment) =~~= c01);
    assert(props_with(props_from_lines(pl), Rule::WantedBy) =~~= c02);
    assert(props_with(props_from_lines(pl), Rule::RequiredBy) =~~= c03);
    assert(props_with(props_from_lines(pl), Rule::Alias) =~~= c04);
    assert(props_with(props_from_lines(pl), Rule::Also) =~~= c05);
    assert(props_with(props_from_lines(pl), Rule::DefaultInstance) =~~= c06);
}

/// A present, well-formed install section is rebuilt exactly from the
/// lines it renders to.
#[verifier::rlimit(100)]
pub proof fn lemma_install_rebuild(t: InstallSectionView)
    requires
        wf_install(t),
        t.head.len() > 0,
    ensures
        all_prop_lines(install_prop_lines(t)),
        spec_install_lines(t) == seq![t.head] + install_prop_lines(t),
        spec_install_view(props_from_lines(install_prop_lines(t)), true) == t,
{
    lemma_install_props_with(t);
    let pl = install_prop_lines(t);
    let ps = props_from_lines(pl);

    assert(spec_list(ps, Rule::Comment) == t.comments);
    assert(spec_singleton(ps, Rule::WantedBy) == t.wanted_by);
    assert(spec_singleton(ps, Rule::RequiredBy) == t.required_by);
    assert(spec_singleton(ps, Rule::Alias) == t.alias);
    assert(spec_singleton(ps, Rule::Also) == t.also);
    assert(spec_singleton(ps, Rule::DefaultInstance) == t.default_instance);
    assert(spec_install_view(ps, true) =~= t);
    assert(spec_install_lines(t) =~= seq![t.head] + pl);
}



/// A block's lines carry no terminator.
pub proof fn lemma_block_no_nl(b: Seq<Seq<u8>>)
    requires
        block_ok(b),
    ensures
        forall|i: int| 0 <= i < b.len() ==> line_no_nl(#[trigger] b[i]),
{
    assert forall|i: int| 0 <= i < b.len() implies line_no_nl(#[trigger] b[i]) by {
        if i > 0 {
            assert(b[i] == b.drop_first()[i - 1]);
        }
    }
}

/// The three known headings carry no terminator.
pub proof fn lemma_heads_no_nl()
    ensures
        line_no_nl(unit_head()),
        line_no_nl(service_head()),
        line_no_nl(install_head()),
{
}

/// Rendering a well-formed model yields valid text whose model is the
/// original: the reparse direction of the round trip.
#[verifier::rlimit(100)]
pub proof fn lemma_render_reparse(m: SystemdFileView)
    requires
        wf_model(m),
    ensures
        spec_valid(spec_render(m)),
        spec_map(spec_tree(spec_render(m))) == m,
{
    lemma_heads();
    lemma_heads_no_nl();
    let uh = unit_head();
    let sh = service_head();
    let ih = install_head();
    let lu = spec_unit_lines(m.unit);
    let lsv = spec_service_lines(m.service);
    let li = spec_install_lines(m.install);
    let present_u = m.unit.head.len() > 0;
    let present_s = m.service.head.len() > 0;
    let present_i = m.install.head.len() > 0;
    if present_u {
        lemma_unit_rebuild(m.unit);
        assert(block_ok(lu)) by {
            assert(lu.drop_first() =~= unit_prop_lines(m.unit));
        }
    } else {
        assert(lu =~= Seq::<Seq<u8>>::empty());
    }
    if present_s {
        lemma_service_rebuild(m.service);
        assert(block_ok(lsv)) by {
            assert(lsv.drop_first() =~= service_prop_lines(m.service));
        }
    } else {
        assert(lsv =~= Seq::<Seq<u8>>::empty());
    }
    if present_i {
        lemma_install_rebuild(m.install);
        assert(block_ok(li)) by {
            assert(li.drop_first() =~= install_prop_lines(m.install));
        }
    } else {
        assert(li =~= Seq::<Seq<u8>>::empty());
    }
    let all = spec_render_lines(m);
    assert(all == lu + lsv + li);
    lemma_blocks_valid(lu, lsv, li);
    lemma_block_no_nl(lu);
    lemma_block_no_nl(lsv);
    lemma_block_no_nl(li);
    assert(forall|i: int| 0 <= i < all.len() ==> line_no_nl(#[trigger] all[i])) by {
        assert forall|i: int| 0 <= i < all.len() implies line_no_nl(#[trigger] all[i]) by {
            if i < lu.len() {
                assert(all[i] == lu[i]);
            } else if i < lu.len() + lsv.len() {
                assert(all[i] == lsv[i - lu.len()]);
            } else {
                assert(all[i] == li[i - lu.len() - lsv.len()]);
            }
        }
    }
    lemma_split_unlines(all);
    assert(spec_split_lines(spec_render(m)) == all + seq![Seq::<u8>::empty()]);
    assert(spec_lines_valid(lu + lsv + li + seq![Seq::<u8>::empty()]));
    assert(all + seq![Seq::<u8>::empty()] == lu + lsv + li + seq![Seq::<u8>::empty()]);
    assert(spec_valid(spec_render(m)));

    // rebuild the tree block by block
    let acc0 = Seq::<SectionView>::empty();
    lemma_sections_from_concat(acc0, lu + lsv + li, seq![Seq::<u8>::empty()]);
    lemma_sections_from_concat(acc0, lu + lsv, li);
    lemma_sections_from_concat(acc0, lu, lsv);
    let acc1 = spec_sections_from(acc0, lu);
    let acc2 = spec_sections_from(acc1, lsv);
    let acc3 = spec_sections_from(acc2, li);
    lemma_sections_from_blank(acc3);
    assert(spec_tree(spec_render(m)) == acc3) by {
        assert((lu + lsv) + li =~~= lu + lsv + li);
        assert(((lu + lsv) + li) + seq![Seq::<u8>::empty()] =~~= all + seq![Seq::<u8>::empty()]);
    }
    assert(props_of(acc0, uh) == Seq::<PropView>::empty());
    assert(props_of(acc0, sh) == Seq::<PropView>::empty());
    assert(props_of(acc0, ih) == Seq::<PropView>::empty());
    assert(!spec_head_present(acc0, uh));
    assert(!spec_head_present(acc0, sh));
    assert(!spec_head_present(acc0, ih));

    let pu = props_from_lines(unit_prop_lines(m.unit));
    let ps = props_from_lines(service_prop_lines(m.service));
    let pi = props_from_lines(install_prop_lines(m.install));
    if present_u {
        let node = SectionView { head: m.unit.head, props: pu };
        lemma_sections_from_block(acc0, m.unit.head, unit_prop_lines(m.unit));
        assert(acc1 == acc0.push(node));
        lemma_props_of_push(acc0, node, uh);
        lemma_props_of_push(acc0, node, sh);
        lemma_props_of_push(acc0, node, ih);
        lemma_head_present_push(acc0, node, uh);
        lemma_head_present_push(acc0, node, sh);
        lemma_head_present_push(acc0, node, ih);
        assert(props_of(acc1, uh) =~= pu);
    } else {
        assert(acc1 == acc0);
    }
    assert(props_of(acc1, uh) == if present_u { pu } else { Seq::<PropView>::empty() });
    assert(props_of(acc1, sh) == Seq::<PropView>::empty());
    assert(props_of(acc1, ih) == Seq::<PropView>::empty());
    assert(spec_head_present(acc1, uh) == present_u);
    assert(!spec_head_present(acc1, sh));
    assert(!spec_head_present(acc1, ih));
    if present_s {
        let node = SectionView { head: m.service.head, props: ps };
        lemma_sections_from_block(acc1, m.service.head, service_prop_lines(m.service));
        assert(acc2 == acc1.push(node));
        lemma_props_of_push(acc1, node, uh);
        lemma_props_of_push(acc1, node, sh);
        lemma_props_of_push(acc1, node, ih);
        lemma_head_present_push(acc1, node, uh);
        lemma_head_present_push(acc1, node, sh);
        lemma_head_present_push(acc1, node, ih);
        assert(props_of(acc2, sh) =~= ps);
    } else {
        assert(acc2 == acc1);
    }
    assert(props_of(acc2, uh) == if present_u { pu } else { Seq::<PropView>::empty() });
    assert(props_of(acc2, sh) == if present_s { ps } else { Seq::<PropView>::empty() });
    assert(props_of(acc2, ih) == Seq::<PropView>::empty());
    assert(spec_head_present(acc2, uh) == present_u);
    assert(spec_head_present(acc2, sh) == present_s);
    assert(!spec_head_present(acc2, ih));
    if present_i {
        let node = SectionView { head: m.install.head, props: pi };
        lemma_sections_from_block(acc2, m.install.head, install_prop_lines(m.install));
        assert(acc3 == acc2.push(node));
        lemma_props_of_push(acc2, node, uh);
        lemma_props_of_push(acc2, node, sh);
        lemma_props_of_push(acc2, node, ih);
        lemma_head_present_push(acc2, node, uh);
        lemma_head_present_push(acc2, node, sh);
        lemma_head_present_push(acc2, node, ih);
        assert(props_of(acc3, ih) =~= pi);
    } else {
        assert(acc3 == acc2);
    }
    assert(props_of(acc3, uh) == if present_u { pu } else { Seq::<PropView>::empty() });
    assert(props_of(acc3, sh) == if present_s { ps } else { Seq::<PropView>::empty() });
    assert(props_of(acc3, ih) == if present_i { pi } else { Seq::<PropView>::empty() });
    assert(spec_head_present(acc3, uh) == present_u);
    assert(spec_head_present(acc3, sh) == present_s);
    assert(spec_head_present(acc3, ih) == present_i);

    if present_u {
        assert(spec_map(acc3).unit == m.unit);
    } else {
        assert(spec_map(acc3).unit =~= UnitSectionView::empty());
    }
    if present_s {
        assert(spec_map(acc3).service == m.service);
    } else {
        assert(spec_map(acc3).service =~= ServiceSectionView::empty());
    }
    if present_i {
        assert(spec_map(acc3).install == m.install);
    } else {
        assert(spec_map(acc3).install =~= InstallSectionView::empty());
    }
    assert(spec_map(acc3) =~= m);
}


/// Round trip: for syntactically valid text, rendering the parsed model
/// gives valid text again, and parsing that text gives the same model,
/// field for field.
pub proof fn lemma_text_round_trip(t: Seq<u8>)
    requires
        spec_valid(t),
    ensures
        wf_model(crate::spec_model(t)),
        spec_valid(spec_render(crate::spec_model(t))),
        crate::spec_model(spec_render(crate::spec_model(t))) == crate::spec_model(t),
{
    let lines = spec_split_lines(t);
    lemma_split_lines_props(t);
    assert forall|i: int| 0 <= i < lines.len() implies spec_line_ok(#[trigger] lines[i]) by {
        assert(spec_line_valid_at(lines, i));
    }
    assert(forall|i: int| 0 <= i < lines.len() ==> line_no_nl(#[trigger] lines[i]));
    lemma_sections_from_wf(Seq::empty(), lines);
    lemma_map_wf(spec_tree(t));
    lemma_render_reparse(crate::spec_model(t));
}

/// Ordered append keeps source order: two further occurrences of a
/// list-field rule land at the end of its list, in that order.
pub proof fn lemma_append_order(ps: Seq<PropView>, r: Rule, x1: Seq<u8>, x2: Seq<u8>)
    ensures
        props_with(
            ps.push(PropView { rule: r, span: x1 }).push(PropView { rule: r, span: x2 }),
            r,
        ) == props_with(ps, r).push(x1).push(x2),
{
    lemma_props_with_push(ps, PropView { rule: r, span: x1 }, r);
    lemma_props_with_push(ps.push(PropView { rule: r, span: x1 }), PropView { rule: r, span: x2 }, r);
}

/// Singleton fields are last-writer-wins: after one more occurrence of
/// the rule, the field holds exactly that occurrence's span, whatever
/// came before.
pub proof fn lemma_singleton_last_writer(ps: Seq<PropView>, r: Rule, x: Seq<u8>)
    ensures
        spec_singleton(ps.push(PropView { rule: r, span: x }), r) == Some(x),
        spec_last_span(ps.push(PropView { rule: r, span: x }), r) == x,
{
    lemma_props_with_push(ps, PropView { rule: r, span: x }, r);
}

/// The tokenized singleton takes the first `ExecStart` directive only:
/// once tokens are captured, a later `ExecStart` property changes
/// nothing.
pub proof fn lemma_exec_start_first_only(ps: Seq<PropView>, x: Seq<u8>)
    requires
        spec_exec_start(ps).len() > 0,
    ensures
        spec_exec_start(ps.push(PropView { rule: Rule::ExecStart, span: x })) == spec_exec_start(
            ps,
        ),
{
    lemma_exec_start_push(ps, PropView { rule: Rule::ExecStart, span: x });
}

/// Selecting by rule ignores an inserted property of a different rule.
pub proof fn lemma_props_with_insert_other(a: Seq<PropView>, b: Seq<PropView>, p: PropView, r: Rule)
    requires
        p.rule != r,
    ensures
        props_with(a + seq![p] + b, r) == props_with(a + b, r),
{
    lemma_props_with_concat(a, seq![p], r);
    lemma_props_with_concat(a + seq![p], b, r);
    lemma_props_with_concat(a, b, r);
    assert(props_with(seq![p], r) =~= Seq::<Seq<u8>>::empty()) by {
        assert(seq![p].drop_last() =~= Seq::<PropView>::empty());
        assert(props_with(Seq::<PropView>::empty(), r) == Seq::<Seq<u8>>::empty());
        assert(seq![p].last() == p);
    }
    assert(props_with(a, r) + Seq::<Seq<u8>>::empty() =~= props_with(a, r));
}

/// The tokenized singleton ignores an inserted property that is not an
/// `ExecStart` one.
pub proof fn lemma_exec_start_insert_other(a: Seq<PropView>, b: Seq<PropView>, p: PropView)
    requires
        p.rule != Rule::ExecStart,
    ensures
        spec_exec_start(a + seq![p] + b) == spec_exec_start(a + b),
    decreases b.len(),
{
    if b.len() == 0 {
        assert(a + seq![p] + b =~= a + seq![p]);
        assert((a + seq![p]).drop_last() =~= a);
        assert((a + seq![p]).last() == p);
        assert(a + b =~= a);
    } else {
        lemma_exec_start_insert_other(a, b.drop_last(), p);
        assert((a + seq![p] + b).drop_last() =~= a + seq![p] + b.drop_last());
        assert((a + seq![p] + b).last() == b.last());
        assert((a + b).drop_last() =~= a + b.drop_last());
        assert((a + b).last() == b.last());
    }
}

/// The unit section ignores an inserted property of an unrecognized
/// rule.
pub proof fn lemma_unit_view_insert_unknown(a: Seq<PropView>, b: Seq<PropView>, p: PropView, pr: bool)
    requires
        p.rule == Rule::Unknown,
    ensures
        spec_unit_view(a + seq![p] + b, pr) == spec_unit_view(a + b, pr),
{
    lemma_props_with_insert_other(a, b, p, Rule::Comment);
    lemma_props_with_insert_other(a, b, p, Rule::Description);
    lemma_props_with_insert_other(a, b, p, Rule::After);
    lemma_props_with_insert_other(a, b, p, Rule::Documentation);
    lemma_props_with_insert_other(a, b, p, Rule::Requires);
    lemma_props_with_insert_other(a, b, p, Rule::Wants);
    lemma_props_with_insert_other(a, b, p, Rule::BindsTo);
    lemma_props_with_insert_other(a, b, p, Rule::Before);
    lemma_props_with_insert_other(a, b, p, Rule::Conflicts);
    lemma_props_with_insert_other(a, b, p, Rule::Condition);
    lemma_props_with_insert_other(a, b, p, Rule::Assert);
    lemma_props_with_insert_other(a, b, p, Rule::ConditionPathExists);
    assert(spec_unit_view(a + seq![p] + b, pr) =~= spec_unit_view(a + b, pr));
}

/// The service section ignores an inserted property of an unrecognized
/// rule.
#[verifier::rlimit(60)]
pub proof fn lemma_service_view_insert_unknown(
    a: Seq<PropView>,
    b: Seq<PropView>,
    p: PropView,
    pr: bool,
)
    requires
        p.rule == Rule::Unknown,
    ensures
        spec_service_view(a + seq![p] + b, pr) == spec_service_view(a + b, pr),
{
    lemma_props_with_insert_other(a, b, p, Rule::Comment);
    lemma_props_with_insert_other(a, b, p, Rule::ServiceType);
    lemma_props_with_insert_other(a, b, p, Rule::StartPre);
    lemma_props_with_insert_other(a, b, p, Rule::StartPost);
    lemma_props_with_insert_other(a, b, p, Rule::Reload);
    lemma_props_with_insert_other(a, b, p, Rule::ExecStop);
    lemma_props_with_insert_other(a, b, p, Rule::StopPost);
    lemma_props_with_insert_other(a, b, p, Rule::RestartSec);
    lemma_props_with_insert_other(a, b, p, Rule::Restart);
    lemma_props_with_insert_other(a, b, p, Rule::TimeoutSec);
    lemma_props_with_insert_other(a, b, p, Rule::EnvironmentFile);
    lemma_props_with_insert_other(a, b, p, Rule::KillMode);
    lemma_props_with_insert_other(a, b, p, Rule::RestartPreventExitStatus);
    lemma_props_with_insert_other(a, b, p, Rule::RuntimeDirectory);
    lemma_props_with_insert_other(a, b, p, Rule::RuntimeDirectoryMode);
    lemma_props_with_insert_other(a, b, p, Rule::Environment);
    lemma_props_with_insert_other(a, b, p, Rule::StandardOutput);
    lemma_props_with_insert_other(a, b, p, Rule::LimitNoFile);
    lemma_exec_start_insert_other(a, b, p);
    assert(spec_service_view(a + seq![p] + b, pr) =~= spec_service_view(a + b, pr));
}

/// The install section ignores an inserted property of an unrecognized
/// rule.
pub proof fn lemma_install_view_insert_unknown(
    a: Seq<PropView>,
    b: Seq<PropView>,
    p: PropView,
    pr: bool,
)
    requires
        p.rule == Rule::Unknown,
    ensures
        spec_install_view(a + seq![p] + b, pr) == spec_install_view(a + b, pr),
{
    lemma_props_with_insert_other(a, b, p, Rule::Comment);
    lemma_props_with_insert_other(a, b, p, Rule::WantedBy);
    lemma_props_with_insert_other(a, b, p, Rule::RequiredBy);
    lemma_props_with_insert_other(a, b, p, Rule::Alias);
    lemma_props_with_insert_other(a, b, p, Rule::Also);
    lemma_props_with_insert_other(a, b, p, Rule::DefaultInstance);
    assert(spec_install_view(a + seq![p] + b, pr) =~= spec_install_view(a + b, pr));
}

/// Unknown directive tolerance: a property the mapper does not
/// recognize, inserted anywhere into any section's property list, leaves
/// the whole model unchanged.
#[verifier::rlimit(100)]
pub proof fn lemma_unknown_directive_skipped(
    secs: Seq<SectionView>,
    i: int,
    j: int,
    p: PropView,
)
    requires
        0 <= i < secs.len(),
        0 <= j <= secs[i].props.len(),
        p.rule == Rule::Unknown,
    ensures
        spec_map(
            secs.update(
                i,
                SectionView { head: secs[i].head, props: secs[i].props.insert(j, p) },
            ),
        ) == spec_map(secs),
{
    lemma_heads();
    let sec2 = SectionView { head: secs[i].head, props: secs[i].props.insert(j, p) };
    let secs2 = secs.update(i, sec2);
    let a = secs[i].props.take(j);
    let b = secs[i].props.skip(j);
    assert(secs[i].props =~= a + b);
    assert(secs[i].props.insert(j, p) =~= a + seq![p] + b);
    let h0 = secs[i].head;
    assert forall|h: Seq<u8>| true implies #[trigger] spec_head_present(secs2, h)
        == spec_head_present(secs, h) by {
        if spec_head_present(secs2, h) {
            let k = choose|k: int| 0 <= k < secs2.len() && (#[trigger] secs2[k]).head == h;
            assert(secs[k].head == h);
        }
        if spec_head_present(secs, h) {
            let k = choose|k: int| 0 <= k < secs.len() && (#[trigger] secs[k]).head == h;
            assert(secs2[k].head == h);
        }
    }
    assert forall|h: Seq<u8>| h != h0 implies #[trigger] props_of(secs2, h) == props_of(
        secs,
        h,
    ) by {
        lemma_props_of_split_at(secs2, i, h);
        lemma_props_of_split_at(secs, i, h);
        assert(secs2.take(i) =~= secs.take(i));
        assert(secs2.skip(i + 1) =~= secs.skip(i + 1));
    }
    lemma_props_of_split_at(secs2, i, h0);
    lemma_props_of_split_at(secs, i, h0);
    assert(secs2.take(i) =~= secs.take(i));
    assert(secs2.skip(i + 1) =~= secs.skip(i + 1));
    let pre = props_of(secs.take(i), h0);
    let post = props_of(secs.skip(i + 1), h0);
    let left = pre + a;
    let right = b + post;
    assert(props_of(secs, h0) == pre + (a + b) + post);
    assert(props_of(secs2, h0) == pre + (a + seq![p] + b) + post);
    assert(pre + (a + b) + post =~= left + right);
    assert(pre + (a + seq![p] + b) + post =~= left + seq![p] + right);
    lemma_unit_view_insert_unknown(left, right, p, spec_head_present(secs, unit_head()));
    lemma_service_view_insert_unknown(left, right, p, spec_head_present(secs, service_head()));
    lemma_install_view_insert_unknown(left, right, p, spec_head_present(secs, install_head()));
    assert(spec_map(secs2).unit == spec_map(secs).unit);
    assert(spec_map(secs2).service == spec_map(secs).service);
    assert(spec_map(secs2).install == spec_map(secs).install);
    assert(spec_map(secs2) =~= spec_map(secs));
}

/// `props_of` splits at any section index.
pub proof fn lemma_props_of_split_at(secs: Seq<SectionView>, i: int, h: Seq<u8>)
    requires
        0 <= i < secs.len(),
    ensures
        props_of(secs, h) == props_of(secs.take(i), h) + (if secs[i].head == h {
            secs[i].props
        } else {
            Seq::<PropView>::empty()
        }) + props_of(secs.skip(i + 1), h),
{
    assert(secs =~= (secs.take(i) + seq![secs[i]]) + secs.skip(i + 1));
    lemma_props_of_concat(secs.take(i) + seq![secs[i]], secs.skip(i + 1), h);
    lemma_props_of_concat(secs.take(i), seq![secs[i]], h);
    assert(props_of(seq![secs[i]], h) == if secs[i].head == h {
        secs[i].props
    } else {
        Seq::<PropView>::empty()
    }) by {
        assert(seq![secs[i]].drop_last() =~= Seq::<SectionView>::empty());
        assert(props_of(Seq::<SectionView>::empty(), h) == Seq::<PropView>::empty());
        assert(seq![secs[i]].last() == secs[i]);
        if secs[i].head == h {
            assert(Seq::<PropView>::empty() + secs[i].props =~= secs[i].props);
        }
    }
}

} // verus!
