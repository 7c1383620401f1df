//! The model-to-text serializer: a deterministic, pure replay of the
//! captured spans.
//!
//! Emission order is fixed by the schema's declaration order: heading
//! first, then the comment block, then every field in declared order. A
//! list field becomes one line per element in append order; a present
//! singleton becomes its one line; an absent field emits nothing. The
//! `exec_start` tokens are joined back into a single directive line.
//! A section whose heading was never seen emits nothing at all. Sections
//! come out unit, then service, then install, each line closed by the
//! line terminator.

use vstd::prelude::*;
use crate::grammar::NL;
use crate::mapper::opt_items;
use crate::schema::{
    UnitSection, ServiceSection, InstallSection, SystemdFile, UnitSectionView, ServiceSectionView,
    InstallSectionView, SystemdFileView, opt_view, opt_list_view,
};

verus! {

/// The space byte used to join `exec_start` tokens.
pub const SP: u8 = 32;

/// Lines flattened to bytes, each line closed by the terminator.
pub open spec fn spec_unlines(ls: Seq<Seq<u8>>) -> Seq<u8>
    decreases ls.len(),
{
    if ls.len() == 0 {
        Seq::empty()
    } else {
        ls[0] + seq![NL] + spec_unlines(ls.drop_first())
    }
}

/// `spec_unlines` distributes over concatenation.
pub proof fn lemma_unlines_concat(a: Seq<Seq<u8>>, b: Seq<Seq<u8>>)
    ensures
        spec_unlines(a + b) == spec_unlines(a) + spec_unlines(b),
    decreases a.len(),
{
    if a.len() == 0 {
        assert(a + b =~= b);
        assert(spec_unlines(a) + spec_unlines(b) =~= spec_unlines(b));
    } else {
        lemma_unlines_concat(a.drop_first(), b);
        assert((a + b).drop_first() =~= a.drop_first() + b);
        assert((a + b)[0] == a[0]);
        assert(a[0] + seq![NL] + (spec_unlines(a.drop_first()) + spec_unlines(b)) =~= (a[0]
            + seq![NL] + spec_unlines(a.drop_first())) + spec_unlines(b));
    }
}

/// The one line of a single-line block.
pub proof fn lemma_unlines_single(l: Seq<u8>)
    ensures
        spec_unlines(seq![l]) == l + seq![NL],
{
    assert(seq![l].drop_first() =~= Seq::<Seq<u8>>::empty());
    assert(seq![l][0] == l);
    assert(spec_unlines(Seq::<Seq<u8>>::empty()) =~= Seq::<u8>::empty());
    assert(l + seq![NL] + Seq::<u8>::empty() =~= l + seq![NL]);
}

/// Concatenation of byte sequences is associative.
pub proof fn lemma_concat_assoc(a: Seq<u8>, b: Seq<u8>, c: Seq<u8>)
    ensures
        (a + b) + c == a + (b + c),
{
    assert((a + b) + c =~= a + (b + c));
}

/// The lines of an optional singleton field: one, or none.
pub open spec fn opt_line(o: Option<Seq<u8>>) -> Seq<Seq<u8>> {
    match o {
        None => Seq::empty(),
        Some(x) => seq![x],
    }
}

/// The line of a plain captured field, absent while the field is empty.
pub open spec fn nonempty_line(x: Seq<u8>) -> Seq<Seq<u8>> {
    if x.len() == 0 {
        Seq::empty()
    } else {
        seq![x]
    }
}

/// Tokens joined with single spaces into one line.
pub open spec fn spec_join_sp(ts: Seq<Seq<u8>>) -> Seq<u8>
    decreases ts.len(),
{
    if ts.len() == 0 {
        Seq::empty()
    } else if ts.len() == 1 {
        ts[0]
    } else {
        ts[0] + seq![SP] + spec_join_sp(ts.drop_first())
    }
}

/// Joining after appending a token appends the token after a space.
pub proof fn lemma_join_sp_snoc(ts: Seq<Seq<u8>>, x: Seq<u8>)
    ensures
        spec_join_sp(ts.push(x)) == if ts.len() == 0 {
            x
        } else {
            spec_join_sp(ts) + seq![SP] + x
        },
    decreases ts.len(),
{
    if ts.len() == 0 {
        assert(ts.push(x)[0] =~= x);
    } else if ts.len() == 1 {
        assert(ts.push(x).drop_first() =~= seq![x]);
        assert(ts.push(x)[0] == ts[0]);
        assert(spec_join_sp(seq![x]) == x);
    } else {
        lemma_join_sp_snoc(ts.drop_first(), x);
        assert(ts.push(x).drop_first() =~= ts.drop_first().push(x));
        assert(ts.push(x)[0] == ts[0]);
        assert(ts[0] + seq![SP] + (spec_join_sp(ts.drop_first()) + seq![SP] + x) =~= (ts[0]
            + seq![SP] + spec_join_sp(ts.drop_first())) + seq![SP] + x);
    }
}

/// The line of the tokenized field, absent while there is no token.
pub open spec fn joined_line(ts: Seq<Seq<u8>>) -> Seq<Seq<u8>> {
    if ts.len() == 0 {
        Seq::empty()
    } else {
        seq![spec_join_sp(ts)]
    }
}

/// The lines of the unit section, in declaration order.
pub open spec fn spec_unit_lines(u: UnitSectionView) -> Seq<Seq<u8>> {
    if u.head.len() == 0 {
        Seq::empty()
    } else {
        seq![u.head] + opt_items(u.comments) + nonempty_line(u.description) + opt_items(u.after)
            + opt_items(u.documentation) + opt_items(u.requires_list) + opt_items(u.wants)
            + opt_line(u.binds_to) + opt_items(u.before) + opt_items(u.conflicts) + opt_line(
            u.condition,
        ) + opt_items(u.assert_list) + opt_line(u.condition_path_exists)
    }
}

/// The lines of the service section's trailing singleton fields, in
/// declaration order.
pub open spec fn spec_service_tail_lines(s: ServiceSectionView) -> Seq<Seq<u8>> {
    opt_line(s.exec_stop) + opt_line(s.stop_post) + opt_line(s.restart_sec) + opt_line(s.restart)
        + opt_line(s.timeout_sec) + opt_line(s.environment_file) + opt_line(s.kill_mode)
        + opt_line(s.restart_prevent_exit_status) + opt_line(s.runtime_directory) + opt_line(
        s.runtime_directory_mode,
    ) + opt_line(s.environment) + opt_line(s.standard_output) + opt_line(s.limit_no_file)
}

/// The lines of the service section, in declaration order.
pub open spec fn spec_service_lines(s: ServiceSectionView) -> Seq<Seq<u8>> {
    if s.head.len() == 0 {
        Seq::empty()
    } else {
        seq![s.head] + opt_items(s.comments) + nonempty_line(s.service_type) + joined_line(
            s.exec_start,
        ) + opt_line(s.start_pre) + opt_line(s.start_post) + opt_items(s.reload)
            + spec_service_tail_lines(s)
    }
}

/// The lines of the install section, in declaration order.
pub open spec fn spec_install_lines(t: InstallSectionView) -> Seq<Seq<u8>> {
    if t.head.len() == 0 {
        Seq::empty()
    } else {
        seq![t.head] + opt_items(t.comments) + opt_line(t.wanted_by) + opt_line(t.required_by)
            + opt_line(t.alias) + opt_line(t.also) + opt_line(t.default_instance)
    }
}

/// Every line the model renders to, unit then service then install.
pub open spec fn spec_render_lines(f: SystemdFileView) -> Seq<Seq<u8>> {
    spec_unit_lines(f.unit) + spec_service_lines(f.service) + spec_install_lines(f.install)
}

/// The text the model renders to.
pub open spec fn spec_render(f: SystemdFileView) -> Seq<u8> {
    spec_unlines(spec_render_lines(f))
}

/// Emits one line and its terminator.
fn emit_line(out: &mut Vec<u8>, l: &Vec<u8>)
    ensures
        final(out)@ == old(out)@ + spec_unlines(seq![l@]),
{
    out.extend_from_slice(l.as_slice());
    out.push(NL);
    proof {
        lemma_unlines_single(l@);
        assert(out@ =~= old(out)@ + (l@ + seq![NL]));
    }
}

/// Emits an optional list field, one line per element.
#[verifier::loop_isolation(false)]
fn emit_opt_list(out: &mut Vec<u8>, o: &Option<Vec<Vec<u8>>>)
    ensures
        final(out)@ == old(out)@ + spec_unlines(opt_items(opt_list_view(*o))),
{
    match o {
        None => {
            proof {
                assert(old(out)@ + spec_unlines(opt_items(opt_list_view(*o))) =~= out@);
            }
        },
        Some(v) => {
            let ghost items = v.deep_view();
            let mut i: usize = 0;
            proof {
                assert(items.take(0) =~= Seq::<Seq<u8>>::empty());
                assert(out@ =~= old(out)@ + spec_unlines(items.take(0)));
            }
            while i < v.len()
                invariant
                    0 <= i <= v@.len(),
                    out@ == old(out)@ + spec_unlines(items.take(i as int)),
                decreases v@.len() - i,
            {
                proof {
                    assert(items.take(i + 1) =~= items.take(i as int).push(items[i as int]));
                    lemma_unlines_concat(items.take(i as int), seq![items[i as int]]);
                    assert(items.take(i as int) + seq![items[i as int]] =~= items.take(i + 1));
                    assert(v@[i as int]@ == items[i as int]);
                }
                emit_line(out, &v[i]);
                proof {
                    assert(out@ =~= old(out)@ + spec_unlines(items.take(i + 1)));
                }
                i = i + 1;
            }
            proof {
                assert(items.take(i as int) =~= items);
            }
        },
    }
}

/// Emits an optional singleton field: its one line, or nothing.
fn emit_opt_line(out: &mut Vec<u8>, o: &Option<Vec<u8>>)
    ensures
        final(out)@ == old(out)@ + spec_unlines(opt_line(opt_view(*o))),
{
    match o {
        None => {
            proof {
                assert(old(out)@ + spec_unlines(opt_line(opt_view(*o))) =~= out@);
            }
        },
        Some(x) => {
            emit_line(out, x);
        },
    }
}

/// Emits a plain captured field when it is non-empty.
fn emit_nonempty_line(out: &mut Vec<u8>, x: &Vec<u8>)
    ensures
        final(out)@ == old(out)@ + spec_unlines(nonempty_line(x@)),
{
    if x.len() > 0 {
        emit_line(out, x);
    } else {
        proof {
            assert(old(out)@ + spec_unlines(nonempty_line(x@)) =~= out@);
        }
    }
}

/// Emits the tokenized field joined back into one directive line.
#[verifier::loop_isolation(false)]
fn emit_joined_line(out: &mut Vec<u8>, ts: &Vec<Vec<u8>>)
    ensures
        final(out)@ == old(out)@ + spec_unlines(joined_line(ts.deep_view())),
{
    let ghost items = ts.deep_view();
    if ts.len() == 0 {
        proof {
            assert(old(out)@ + spec_unlines(joined_line(items)) =~= out@);
        }
        return ;
    }
    let mut joined: Vec<u8> = Vec::new();
    let mut i: usize = 0;
    proof {
        assert(items.take(0) =~= Seq::<Seq<u8>>::empty());
        assert(joined@ =~= spec_join_sp(items.take(0)));
    }
    while i < ts.len()
        invariant
            0 <= i <= ts@.len(),
            joined@ == spec_join_sp(items.take(i as int)),
        decreases ts@.len() - i,
    {
        proof {
            assert(items.take(i + 1) =~= items.take(i as int).push(items[i as int]));
            lemma_join_sp_snoc(items.take(i as int), items[i as int]);
            assert(ts@[i as int]@ == items[i as int]);
        }
        if i > 0 {
            joined.push(SP);
        }
        let ghost mid = joined@;
        joined.extend_from_slice(ts[i].as_slice());
        proof {
            assert(joined@ =~= mid + items[i as int]);
            assert(joined@ =~= spec_join_sp(items.take(i + 1)));
        }
        i = i + 1;
    }
    proof {
        assert(items.take(i as int) =~= items);
    }
    emit_line(out, &joined);
}

/// Emits the unit section.
#[verifier::rlimit(60)]
fn render_unit(out: &mut Vec<u8>, u: &UnitSection)
    ensures
        final(out)@ == old(out)@ + spec_unlines(spec_unit_lines(u@)),
{
    if u.head.len() == 0 {
        proof {
            assert(old(out)@ + spec_unlines(spec_unit_lines(u@)) =~= out@);
        }
        return ;
    }
    let ghost uv = u@;
    let ghost b01 = seq![uv.head];
    let ghost b02 = b01 + opt_items(uv.comments);
    let ghost b03 = b02 + nonempty_line(uv.description);
    let ghost b04 = b03 + opt_items(uv.after);
    let ghost b05 = b04 + opt_items(uv.documentation);
    let ghost b06 = b05 + opt_items(uv.requires_list);
    let ghost b07 = b06 + opt_items(uv.wants);
    let ghost b08 = b07 + opt_line(uv.binds_to);
    let ghost b09 = b08 + opt_items(uv.before);
    let ghost b10 = b09 + opt_items(uv.conflicts);
    let ghost b11 = b10 + opt_line(uv.condition);
    let ghost b12 = b11 + opt_items(uv.assert_list);
    let ghost b13 = b12 + opt_line(uv.condition_path_exists);
    proof {
        lemma_unlines_concat(b01, opt_items(uv.comments));
        lemma_unlines_concat(b02, nonempty_line(uv.description));
        lemma_unlines_concat(b03, opt_items(uv.after));
        lemma_unlines_concat(b04, opt_items(uv.documentation));
        lemma_unlines_concat(b05, opt_items(uv.requires_list));
        lemma_unlines_concat(b06, opt_items(uv.wants));
        lemma_unlines_concat(b07, opt_line(uv.binds_to));
        lemma_unlines_concat(b08, opt_items(uv.before));
        lemma_unlines_concat(b09, opt_items(uv.conflicts));
        lemma_unlines_concat(b10, opt_line(uv.condition));
        lemma_unlines_concat(b11, opt_items(uv.assert_list));
        lemma_unlines_concat(b12, opt_line(uv.condition_path_exists));
        assert(spec_unit_lines(uv) == b13);
    }
    emit_line(out, &u.head);
    proof {
        assert(out@ == old(out)@ + spec_unlines(b01));
    }
    emit_opt_list(out, &u.comments);
    proof {
        lemma_concat_assoc(old(out)@, spec_unlines(b01), spec_unlines(opt_items(uv.comments)));
        assert(out@ == old(out)@ + spec_unlines(b02));
    }
    emit_nonempty_line(out, &u.description);
    proof {
        lemma_concat_assoc(old(out)@, spec_unlines(b02), spec_unlines(nonempty_line(uv.description)));
        assert(out@ == old(out)@ + spec_unlines(b03));
    }
    emit_opt_list(out, &u.after);
    proof {
        lemma_concat_assoc(old(out)@, spec_unlines(b03), spec_unlines(opt_items(uv.after)));
        assert(out@ == old(out)@ + spec_unlines(b04));
    }
    emit_opt_list(out, &u.documentation);
    proof {
        lemma_concat_assoc(old(out)@, spec_unlines(b04), spec_unlines(opt_items(uv.documentation)));
        assert(out@ == old(out)@ + spec_unlines(b05));
    }
    emit_opt_list(out, &u.requires_list);
    proof {
        lemma_concat_assoc(old(out)@, spec_unlines(b05), spec_unlines(opt_items(uv.requires_list)));
        assert(out@ == old(out)@ + spec_unlines(b06));
    }
    emit_opt_list(out, &u.wants);
    proof {
        lemma_concat_assoc(old(out)@, spec_unlines(b06), spec_unlines(opt_items(uv.wants)));
        assert(out@ == old(out)@ + spec_unlines(b07));
    }
    emit_opt_line(out, &u.binds_to);
    proof {
        lemma_concat_assoc(old(out)@, spec_unlines(b07), spec_unlines(opt_line(uv.binds_to)));
        assert(out@ == old(out)@ + spec_unlines(b08));
    }
    emit_opt_list(out, &u.before);
    proof {
        lemma_concat_assoc(old(out)@, spec_unlines(b08), spec_unlines(opt_items(uv.before)));
        assert(out@ == old(out)@ + spec_unlines(b09));
    }
    emit_opt_list(out, &u.conflicts);
    proof {
        lemma_concat_assoc(old(out)@, spec_unlines(b09), spec_unlines(opt_items(uv.conflicts)));
        assert(out@ == old(out)@ + spec_unlines(b10));
    }
    emit_opt_line(out, &u.condition);
    proof {
        lemma_concat_assoc(old(out)@, spec_unlines(b10), spec_unlines(opt_line(uv.condition)));
        assert(out@ == old(out)@ + spec_unlines(b11));
    }
    emit_opt_list(out, &u.assert_list);
    proof {
        lemma_concat_assoc(old(out)@, spec_unlines(b11), spec_unlines(opt_items(uv.assert_list)));
        assert(out@ == old(out)@ + spec_unlines(b12));
    }
    emit_opt_line(out, &u.condition_path_exists);
    proof {
        lemma_concat_assoc(old(out)@, spec_unlines(b12), spec_unlines(opt_line(uv.condition_path_exists)));
        assert(out@ == old(out)@ + spec_unlines(b13));
    }
}

/// Emits the service section's trailing singleton fields.
#[verifier::rlimit(60)]
fn render_service_tail(out: &mut Vec<u8>, s: &ServiceSection)
    ensures
        final(out)@ == old(out)@ + spec_unlines(spec_service_tail_lines(s@)),
{
    let ghost sv = s@;
    let ghost b01 = opt_line(sv.exec_stop);
    let ghost b02 = b01 + opt_line(sv.stop_post);
    let ghost b03 = b02 + opt_line(sv.restart_sec);
    let ghost b04 = b03 + opt_line(sv.restart);
    let ghost b05 = b04 + opt_line(sv.timeout_sec);
    let ghost b06 = b05 + opt_line(sv.environment_file);
    let ghost b07 = b06 + opt_line(sv.kill_mode);
    let ghost b08 = b07 + opt_line(sv.restart_prevent_exit_status);
    let ghost b09 = b08 + opt_line(sv.runtime_directory);
    let ghost b10 = b09 + opt_line(sv.runtime_directory_mode);
    let ghost b11 = b10 + opt_line(sv.environment);
    let ghost b12 = b11 + opt_line(sv.standard_output);
    let ghost b13 = b12 + opt_line(sv.limit_no_file);
    proof {
        lemma_unlines_concat(b01, opt_line(sv.stop_post));
        lemma_unlines_concat(b02, opt_line(sv.restart_sec));
        lemma_unlines_concat(b03, opt_line(sv.restart));
        lemma_unlines_concat(b04, opt_line(sv.timeout_sec));
        lemma_unlines_concat(b05, opt_line(sv.environment_file));
        lemma_unlines_concat(b06, opt_line(sv.kill_mode));
        lemma_unlines_concat(b07, opt_line(sv.restart_prevent_exit_status));
        lemma_unlines_concat(b08, opt_line(sv.runtime_directory));
        lemma_unlines_concat(b09, opt_line(sv.runtime_directory_mode));
        lemma_unlines_concat(b10, opt_line(sv.environment));
        lemma_unlines_concat(b11, opt_line(sv.standard_output));
        lemma_unlines_concat(b12, opt_line(sv.limit_no_file));
        assert(spec_service_tail_lines(sv) == b13);
    }
    emit_opt_line(out, &s.exec_stop);
    proof {
        assert(out@ == old(out)@ + spec_unlines(b01));
    }
    emit_opt_line(out, &s.stop_post);
    proof {
        lemma_concat_assoc(old(out)@, spec_unlines(b01), spec_unlines(opt_line(sv.stop_post)));
        assert(out@ == old(out)@ + spec_unlines(b02));
    }
    emit_opt_line(out, &s.restart_sec);
    proof {
        lemma_concat_assoc(old(out)@, spec_unlines(b02), spec_unlines(opt_line(sv.restart_sec)));
        assert(out@ == old(out)@ + spec_unlines(b03));
    }
    emit_opt_line(out, &s.restart);
    proof {
        lemma_concat_assoc(old(out)@, spec_unlines(b03), spec_unlines(opt_line(sv.restart)));
        assert(out@ == old(out)@ + spec_unlines(b04));
    }
    emit_opt_line(out, &s.timeout_sec);
    proof {
        lemma_concat_assoc(old(out)@, spec_unlines(b04), spec_unlines(opt_line(sv.timeout_sec)));
        assert(out@ == old(out)@ + spec_unlines(b05));
    }
    emit_opt_line(out, &s.environment_file);
    proof {
        lemma_concat_assoc(old(out)@, spec_unlines(b05), spec_unlines(opt_line(sv.environment_file)));
        assert(out@ == old(out)@ + spec_unlines(b06));
    }
    emit_opt_line(out, &s.kill_mode);
    proof {
        lemma_concat_assoc(old(out)@, spec_unlines(b06), spec_unlines(opt_line(sv.kill_mode)));
        assert(out@ == old(out)@ + spec_unlines(b07));
    }
    emit_opt_line(out, &s.restart_prevent_exit_status);
    proof {
        lemma_concat_assoc(old(out)@, spec_unlines(b07), spec_unlines(opt_line(sv.restart_prevent_exit_status)));
        assert(out@ == old(out)@ + spec_unlines(b08));
    }
    emit_opt_line(out, &s.runtime_directory);
    proof {
        lemma_concat_assoc(old(out)@, spec_unlines(b08), spec_unlines(opt_line(sv.runtime_directory)));
        assert(out@ == old(out)@ + spec_unlines(b09));
    }
    emit_opt_line(out, &s.runtime_directory_mode);
    proof {
        lemma_concat_assoc(old(out)@, spec_unlines(b09), spec_unlines(opt_line(sv.runtime_directory_mode)));
        assert(out@ == old(out)@ + spec_unlines(b10));
    }
    emit_opt_line(out, &s.environment);
    proof {
        lemma_concat_assoc(old(out)@, spec_unlines(b10), spec_unlines(opt_line(sv.environment)));
        assert(out@ == old(out)@ + spec_unlines(b11));
    }
    emit_opt_line(out, &s.standard_output);
    proof {
        lemma_concat_assoc(old(out)@, spec_unlines(b11), spec_unlines(opt_line(sv.standard_output)));
        assert(out@ == old(out)@ + spec_unlines(b12));
    }
    emit_opt_line(out, &s.limit_no_file);
    proof {
        lemma_concat_assoc(old(out)@, spec_unlines(b12), spec_unlines(opt_line(sv.limit_no_file)));
        assert(out@ == old(out)@ + spec_unlines(b13));
    }
}

/// Emits the service section.
#[verifier::rlimit(60)]
fn render_service(out: &mut Vec<u8>, s: &ServiceSection)
    ensures
        final(out)@ == old(out)@ + spec_unlines(spec_service_lines(s@)),
{
    if s.head.len() == 0 {
        proof {
            assert(old(out)@ + spec_unlines(spec_service_lines(s@)) =~= out@);
        }
        return ;
    }
    let ghost sv = s@;
    let ghost b01 = seq![sv.head];
    let ghost b02 = b01 + opt_items(sv.comments);
    let ghost b03 = b02 + nonempty_line(sv.service_type);
    let ghost b04 = b03 + joined_line(sv.exec_start);
    let ghost b05 = b04 + opt_line(sv.start_pre);
    let ghost b06 = b05 + opt_line(sv.start_post);
    let ghost b07 = b06 + opt_items(sv.reload);
    let ghost b08 = b07 + spec_service_tail_lines(sv);
    proof {
        lemma_unlines_concat(b01, opt_items(sv.comments));
        lemma_unlines_concat(b02, nonempty_line(sv.service_type));
        lemma_unlines_concat(b03, joined_line(sv.exec_start));
        lemma_unlines_concat(b04, opt_line(sv.start_pre));
        lemma_unlines_concat(b05, opt_line(sv.start_post));
        lemma_unlines_concat(b06, opt_items(sv.reload));
        lemma_unlines_concat(b07, spec_service_tail_lines(sv));
        assert(spec_service_lines(sv) == b08);
    }
    emit_line(out, &s.head);
    proof {
        assert(out@ == old(out)@ + spec_unlines(b01));
    }
    emit_opt_list(out, &s.comments);
    proof {
        lemma_concat_assoc(old(out)@, spec_unlines(b01), spec_unlines(opt_items(sv.comments)));
        assert(out@ == old(out)@ + spec_unlines(b02));
    }
    emit_nonempty_line(out, &s.service_type);
    proof {
        lemma_concat_assoc(old(out)@, spec_unlines(b02), spec_unlines(nonempty_line(sv.service_type)));
        assert(out@ == old(out)@ + spec_unlines(b03));
    }
    emit_joined_line(out, &s.exec_start);
    proof {
        lemma_concat_assoc(old(out)@, spec_unlines(b03), spec_unlines(joined_line(sv.exec_start)));
        assert(out@ == old(out)@ + spec_unlines(b04));
    }
    emit_opt_line(out, &s.start_pre);
    proof {
        lemma_concat_assoc(old(out)@, spec_unlines(b04), spec_unlines(opt_line(sv.start_pre)));
        assert(out@ == old(out)@ + spec_unlines(b05));
    }
    emit_opt_line(out, &s.start_post);
    proof {
        lemma_concat_assoc(old(out)@, spec_unlines(b05), spec_unlines(opt_line(sv.start_post)));
        assert(out@ == old(out)@ + spec_unlines(b06));
    }
    emit_opt_list(out, &s.reload);
    proof {
        lemma_concat_assoc(old(out)@, spec_unlines(b06), spec_unlines(opt_items(sv.reload)));
        assert(out@ == old(out)@ + spec_unlines(b07));
    }
    render_service_tail(out, s);
    proof {
        lemma_concat_assoc(old(out)@, spec_unlines(b07), spec_unlines(spec_service_tail_lines(sv)));
        assert(out@ == old(out)@ + spec_unlines(b08));
    }
}

/// Emits the install section.
fn render_install(out: &mut Vec<u8>, t: &InstallSection)
    ensures
        final(out)@ == old(out)@ + spec_unlines(spec_install_lines(t@)),
{
    if t.head.len() == 0 {
        proof {
            assert(old(out)@ + spec_unlines(spec_install_lines(t@)) =~= out@);
        }
        return ;
    }
    let ghost tv = t@;
    let ghost b01 = seq![tv.head];
    let ghost b02 = b01 + opt_items(tv.comments);
    let ghost b03 = b02 + opt_line(tv.wanted_by);
    let ghost b04 = b03 + opt_line(tv.required_by);
    let ghost b05 = b04 + opt_line(tv.alias);
    let ghost b06 = b05 + opt_line(tv.also);
    let ghost b07 = b06 + opt_line(tv.default_instance);
    proof {
        lemma_unlines_concat(b01, opt_items(tv.comments));
        lemma_unlines_concat(b02, opt_line(tv.wanted_by));
        lemma_unlines_concat(b03, opt_line(tv.required_by));
        lemma_unlines_concat(b04, opt_line(tv.alias));
        lemma_unlines_concat(b05, opt_line(tv.also));
        lemma_unlines_concat(b06, opt_line(tv.default_instance));
        assert(spec_install_lines(tv) == b07);
    }
    emit_line(out, &t.head);
    proof {
        assert(out@ == old(out)@ + spec_unlines(b01));
    }
    emit_opt_list(out, &t.comments);
    proof {
        lemma_concat_assoc(old(out)@, spec_unlines(b01), spec_unlines(opt_items(tv.comments)));
        assert(out@ == old(out)@ + spec_unlines(b02));
    }
    emit_opt_line(out, &t.wanted_by);
    proof {
        lemma_concat_assoc(old(out)@, spec_unlines(b02), spec_unlines(opt_line(tv.wanted_by)));
        assert(out@ == old(out)@ + spec_unlines(b03));
    }
    emit_opt_line(out, &t.required_by);
    proof {
        lemma_concat_assoc(old(out)@, spec_unlines(b03), spec_unlines(opt_line(tv.required_by)));
        assert(out@ == old(out)@ + spec_unlines(b04));
    }
    emit_opt_line(out, &t.alias);
    proof {
        lemma_concat_assoc(old(out)@, spec_unlines(b04), spec_unlines(opt_line(tv.alias)));
        assert(out@ == old(out)@ + spec_unlines(b05));
    }
    emit_opt_line(out, &t.also);
    proof {
        lemma_concat_assoc(old(out)@, spec_unlines(b05), spec_unlines(opt_line(tv.also)));
        assert(out@ == old(out)@ + spec_unlines(b06));
    }
    emit_opt_line(out, &t.default_instance);
    proof {
        lemma_concat_assoc(old(out)@, spec_unlines(b06), spec_unlines(opt_line(tv.default_instance)));
        assert(out@ == old(out)@ + spec_unlines(b07));
    }
}

/// Renders a model back to unit-file text: a pure function of the model,
/// replaying every captured span verbatim.
pub fn render(file: &SystemdFile) -> (out: Vec<u8>)
    ensures
        out@ == spec_render(file@),
{
    let mut out: Vec<u8> = Vec::new();
    proof {
        lemma_unlines_concat(
            spec_unit_lines(file@.unit),
            spec_service_lines(file@.service) + spec_install_lines(file@.install),
        );
        lemma_unlines_concat(spec_service_lines(file@.service), spec_install_lines(file@.install));
        assert(spec_render_lines(file@) =~= spec_unit_lines(file@.unit) + (spec_service_lines(
            file@.service,
        ) + spec_install_lines(file@.install)));
    }
    render_unit(&mut out, &file.unit);
    render_service(&mut out, &file.service);
    render_install(&mut out, &file.install);
    proof {
        assert(out@ =~= spec_render(file@));
    }
    out
}

} // verus!
