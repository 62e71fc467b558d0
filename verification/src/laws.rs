//! Properties of the configuration builder that hold for every block:
//! each single-valued option can be set at most once, a stage can be
//! disabled only once in a block, and the unset options take their
//! documented defaults.
use vstd::prelude::*;

use crate::config::BuildState;
use crate::config::GlobalConfigV;
use crate::config::add_stages;
use crate::config::apply_entry;
use crate::config::build_fold;
use crate::config::build_spec;
use crate::config::resolve_args;
use crate::config::init_state;
use crate::entry::ArgumentV;
use crate::entry::EntryV;
use crate::stage::Stage;
use crate::value::ArgValue;

verus! {

proof fn lemma_sender_again_fails(
    g: GlobalConfigV,
    st: BuildState,
    entries: Seq<EntryV>,
    j: int,
)
    requires
        st.sender is Some,
        0 <= j < entries.len(),
        entries[j] is Sender,
    ensures
        build_fold(g, st, entries) is Err,
    decreases j,
{
    if j == 0 {
        assert(entries.first() is Sender);
    } else {
        match apply_entry(g, st, entries.first()) {
            Err(_) => {},
            Ok(st2) => {
                assert(st2.sender is Some);
                assert(entries.drop_first()[j - 1] == entries[j]);
                lemma_sender_again_fails(g, st2, entries.drop_first(), j - 1);
            },
        }
    }
}

proof fn lemma_fold_sender_twice(
    g: GlobalConfigV,
    st: BuildState,
    entries: Seq<EntryV>,
    i: int,
    j: int,
)
    requires
        0 <= i < j < entries.len(),
        entries[i] is Sender,
        entries[j] is Sender,
    ensures
        build_fold(g, st, entries) is Err,
    decreases i,
{
    match apply_entry(g, st, entries.first()) {
        Err(_) => {},
        Ok(st2) => {
            if i == 0 {
                assert(st2.sender is Some);
                assert(entries.drop_first()[j - 1] == entries[j]);
                lemma_sender_again_fails(g, st2, entries.drop_first(), j - 1);
            } else {
                assert(entries.drop_first()[i - 1] == entries[i]);
                assert(entries.drop_first()[j - 1] == entries[j]);
                lemma_fold_sender_twice(g, st2, entries.drop_first(), i - 1, j - 1);
            }
        },
    }
}

/// Two `sender:` directives in one block always fail the build, whatever
/// the two names are and whether or not they are identical.
pub proof fn lemma_sender_twice_fails(g: GlobalConfigV, entries: Seq<EntryV>, i: int, j: int)
    requires
        0 <= i < j < entries.len(),
        entries[i] is Sender,
        entries[j] is Sender,
    ensures
        build_spec(g, entries) is Err,
{
    lemma_fold_sender_twice(g, init_state(), entries, i, j);
}

proof fn lemma_max_gas_again_fails(
    g: GlobalConfigV,
    st: BuildState,
    entries: Seq<EntryV>,
    j: int,
)
    requires
        st.max_gas is Some,
        0 <= j < entries.len(),
        entries[j] is MaxGas,
    ensures
        build_fold(g, st, entries) is Err,
    decreases j,
{
    if j == 0 {
        assert(entries.first() is MaxGas);
    } else {
        match apply_entry(g, st, entries.first()) {
            Err(_) => {},
            Ok(st2) => {
                assert(st2.max_gas is Some);
                assert(entries.drop_first()[j - 1] == entries[j]);
                lemma_max_gas_again_fails(g, st2, entries.drop_first(), j - 1);
            },
        }
    }
}

proof fn lemma_fold_max_gas_twice(
    g: GlobalConfigV,
    st: BuildState,
    entries: Seq<EntryV>,
    i: int,
    j: int,
)
    requires
        0 <= i < j < entries.len(),
        entries[i] is MaxGas,
        entries[j] is MaxGas,
    ensures
        build_fold(g, st, entries) is Err,
    decreases i,
{
    match apply_entry(g, st, entries.first()) {
        Err(_) => {},
        Ok(st2) => {
            if i == 0 {
                assert(st2.max_gas is Some);
                assert(entries.drop_first()[j - 1] == entries[j]);
                lemma_max_gas_again_fails(g, st2, entries.drop_first(), j - 1);
            } else {
                assert(entries.drop_first()[i - 1] == entries[i]);
                assert(entries.drop_first()[j - 1] == entries[j]);
                lemma_fold_max_gas_twice(g, st2, entries.drop_first(), i - 1, j - 1);
            }
        },
    }
}

/// Two `max-gas:` directives in one block always fail the build,
/// independent of whether the two amounts are equal.
pub proof fn lemma_max_gas_twice_fails(g: GlobalConfigV, entries: Seq<EntryV>, i: int, j: int)
    requires
        0 <= i < j < entries.len(),
        entries[i] is MaxGas,
        entries[j] is MaxGas,
    ensures
        build_spec(g, entries) is Err,
{
    lemma_fold_max_gas_twice(g, init_state(), entries, i, j);
}

proof fn lemma_add_stages_present_fails(d: Set<Stage>, ss: Seq<Stage>, k: int)
    requires
        0 <= k < ss.len(),
        d.contains(ss[k]),
    ensures
        add_stages(d, ss) is Err,
    decreases k,
{
    if d.contains(ss.first()) {
    } else {
        assert(k != 0);
        assert(ss.drop_first()[k - 1] == ss[k]);
        lemma_add_stages_present_fails(d.insert(ss.first()), ss.drop_first(), k - 1);
    }
}

proof fn lemma_add_stages_dup_fails(d: Set<Stage>, ss: Seq<Stage>, p: int, q: int)
    requires
        0 <= p < q < ss.len(),
        ss[p] == ss[q],
    ensures
        add_stages(d, ss) is Err,
    decreases p,
{
    if d.contains(ss.first()) {
    } else if p == 0 {
        assert(ss.drop_first()[q - 1] == ss[q]);
        assert(d.insert(ss.first()).contains(ss[q]));
        lemma_add_stages_present_fails(d.insert(ss.first()), ss.drop_first(), q - 1);
    } else {
        assert(ss.drop_first()[p - 1] == ss[p]);
        assert(ss.drop_first()[q - 1] == ss[q]);
        lemma_add_stages_dup_fails(d.insert(ss.first()), ss.drop_first(), p - 1, q - 1);
    }
}

proof fn lemma_fold_stage_dup_in_one(
    g: GlobalConfigV,
    st: BuildState,
    entries: Seq<EntryV>,
    idx: int,
    ss: Seq<Stage>,
    p: int,
    q: int,
)
    requires
        0 <= idx < entries.len(),
        entries[idx] == EntryV::DisableStages(ss),
        0 <= p < q < ss.len(),
        ss[p] == ss[q],
    ensures
        build_fold(g, st, entries) is Err,
    decreases idx,
{
    if idx == 0 {
        lemma_add_stages_dup_fails(st.disabled, ss, p, q);
    } else {
        match apply_entry(g, st, entries.first()) {
            Err(_) => {},
            Ok(st2) => {
                assert(entries.drop_first()[idx - 1] == entries[idx]);
                lemma_fold_stage_dup_in_one(g, st2, entries.drop_first(), idx - 1, ss, p, q);
            },
        }
    }
}

/// A `no-run:` directive that names the same stage twice always fails
/// the build with a duplicate-stage error.
pub proof fn lemma_duplicate_stage_in_directive_fails(
    g: GlobalConfigV,
    entries: Seq<EntryV>,
    idx: int,
    ss: Seq<Stage>,
    p: int,
    q: int,
)
    requires
        0 <= idx < entries.len(),
        entries[idx] == EntryV::DisableStages(ss),
        0 <= p < q < ss.len(),
        ss[p] == ss[q],
    ensures
        build_spec(g, entries) is Err,
{
    lemma_fold_stage_dup_in_one(g, init_state(), entries, idx, ss, p, q);
}

proof fn lemma_add_stages_keeps(d: Set<Stage>, ss: Seq<Stage>, x: Stage)
    requires
        d.contains(x) || ss.contains(x),
    ensures
        add_stages(d, ss) matches Ok(d2) ==> d2.contains(x),
    decreases ss.len(),
{
    if ss.len() == 0 {
    } else if d.contains(ss.first()) {
    } else {
        let d1 = d.insert(ss.first());
        if d.contains(x) || x == ss.first() {
            lemma_add_stages_keeps(d1, ss.drop_first(), x);
        } else {
            let k = choose|k: int| 0 <= k < ss.len() && ss[k] == x;
            assert(ss.drop_first()[k - 1] == ss[k]);
            lemma_add_stages_keeps(d1, ss.drop_first(), x);
        }
    }
}

proof fn lemma_apply_keeps_disabled(g: GlobalConfigV, st: BuildState, e: EntryV, x: Stage)
    requires
        st.disabled.contains(x),
    ensures
        apply_entry(g, st, e) matches Ok(st2) ==> st2.disabled.contains(x),
{
    match e {
        EntryV::DisableStages(ss) => {
            lemma_add_stages_keeps(st.disabled, ss, x);
        },
        _ => {},
    }
}

proof fn lemma_fold_disabled_again_fails(
    g: GlobalConfigV,
    st: BuildState,
    entries: Seq<EntryV>,
    j: int,
    ss: Seq<Stage>,
    x: Stage,
)
    requires
        st.disabled.contains(x),
        0 <= j < entries.len(),
        entries[j] == EntryV::DisableStages(ss),
        ss.contains(x),
    ensures
        build_fold(g, st, entries) is Err,
    decreases j,
{
    if j == 0 {
        let k = choose|k: int| 0 <= k < ss.len() && ss[k] == x;
        lemma_add_stages_present_fails(st.disabled, ss, k);
    } else {
        match apply_entry(g, st, entries.first()) {
            Err(_) => {},
            Ok(st2) => {
                lemma_apply_keeps_disabled(g, st, entries.first(), x);
                assert(entries.drop_first()[j - 1] == entries[j]);
                lemma_fold_disabled_again_fails(g, st2, entries.drop_first(), j - 1, ss, x);
            },
        }
    }
}

proof fn lemma_fold_stage_dup_across(
    g: GlobalConfigV,
    st: BuildState,
    entries: Seq<EntryV>,
    i: int,
    j: int,
    ss1: Seq<Stage>,
    ss2: Seq<Stage>,
    x: Stage,
)
    requires
        0 <= i < j < entries.len(),
        entries[i] == EntryV::DisableStages(ss1),
        entries[j] == EntryV::DisableStages(ss2),
        ss1.contains(x),
        ss2.contains(x),
    ensures
        build_fold(g, st, entries) is Err,
    decreases i,
{
    match apply_entry(g, st, entries.first()) {
        Err(_) => {},
        Ok(st2) => {
            if i == 0 {
                lemma_add_stages_keeps(st.disabled, ss1, x);
                assert(st2.disabled.contains(x));
                assert(entries.drop_first()[j - 1] == entries[j]);
                lemma_fold_disabled_again_fails(g, st2, entries.drop_first(), j - 1, ss2, x);
            } else {
                assert(entries.drop_first()[i - 1] == entries[i]);
                assert(entries.drop_first()[j - 1] == entries[j]);
                lemma_fold_stage_dup_across(g, st2, entries.drop_first(), i - 1, j - 1, ss1, ss2, x);
            }
        },
    }
}

/// Disabling a stage in one `no-run:` directive and again in a later one
/// always fails the build with a duplicate-stage error.
pub proof fn lemma_duplicate_stage_across_directives_fails(
    g: GlobalConfigV,
    entries: Seq<EntryV>,
    i: int,
    j: int,
    ss1: Seq<Stage>,
    ss2: Seq<Stage>,
    x: Stage,
)
    requires
        0 <= i < j < entries.len(),
        entries[i] == EntryV::DisableStages(ss1),
        entries[j] == EntryV::DisableStages(ss2),
        ss1.contains(x),
        ss2.contains(x),
    ensures
        build_spec(g, entries) is Err,
{
    lemma_fold_stage_dup_across(g, init_state(), entries, i, j, ss1, ss2, x);
}

proof fn lemma_fold_sender_stays(
    g: GlobalConfigV,
    st: BuildState,
    entries: Seq<EntryV>,
    n: Seq<char>,
)
    requires
        st.sender == Some(n),
    ensures
        build_fold(g, st, entries) matches Ok(st2) ==> st2.sender == Some(n),
    decreases entries.len(),
{
    if entries.len() > 0 {
        match apply_entry(g, st, entries.first()) {
            Err(_) => {},
            Ok(st2) => {
                lemma_fold_sender_stays(g, st2, entries.drop_first(), n);
            },
        }
    }
}

proof fn lemma_fold_sender_decides(
    g: GlobalConfigV,
    st: BuildState,
    entries: Seq<EntryV>,
    i: int,
    n: Seq<char>,
)
    requires
        0 <= i < entries.len(),
        entries[i] == EntryV::Sender(n),
    ensures
        build_fold(g, st, entries) matches Ok(st2) ==> st2.sender == Some(n),
    decreases i,
{
    match apply_entry(g, st, entries.first()) {
        Err(_) => {},
        Ok(st2) => {
            if i == 0 {
                lemma_fold_sender_stays(g, st2, entries.drop_first(), n);
            } else {
                assert(entries.drop_first()[i - 1] == entries[i]);
                lemma_fold_sender_decides(g, st2, entries.drop_first(), i - 1, n);
            }
        },
    }
}

/// A block that holds a `sender:` directive and builds successfully is
/// configured with exactly the name that directive gave.
pub proof fn lemma_sender_entry_decides(
    g: GlobalConfigV,
    entries: Seq<EntryV>,
    i: int,
    n: Seq<char>,
)
    requires
        0 <= i < entries.len(),
        entries[i] == EntryV::Sender(n),
    ensures
        build_spec(g, entries) matches Ok(c) ==> c.sender == n,
{
    lemma_fold_sender_decides(g, init_state(), entries, i, n);
}

proof fn lemma_fold_args_stays(
    g: GlobalConfigV,
    st: BuildState,
    entries: Seq<EntryV>,
    a: Seq<ArgValue>,
)
    requires
        st.args == Some(a),
    ensures
        build_fold(g, st, entries) matches Ok(st2) ==> st2.args == Some(a),
    decreases entries.len(),
{
    if entries.len() > 0 {
        match apply_entry(g, st, entries.first()) {
            Err(_) => {},
            Ok(st2) => {
                lemma_fold_args_stays(g, st2, entries.drop_first(), a);
            },
        }
    }
}

proof fn lemma_fold_args_decide(
    g: GlobalConfigV,
    st: BuildState,
    entries: Seq<EntryV>,
    i: int,
    raw: Seq<ArgumentV>,
)
    requires
        0 <= i < entries.len(),
        entries[i] == EntryV::Arguments(raw),
    ensures
        build_fold(g, st, entries) matches Ok(st2) ==> (st2.args is Some
            && resolve_args(g.accounts, raw) == Ok::<
            Seq<ArgValue>,
            Seq<char>,
        >(st2.args.unwrap())),
    decreases i,
{
    match apply_entry(g, st, entries.first()) {
        Err(_) => {},
        Ok(st2) => {
            if i == 0 {
                match resolve_args(g.accounts, raw) {
                    Ok(a) => {
                        lemma_fold_args_stays(g, st2, entries.drop_first(), a);
                    },
                    Err(_) => {},
                }
            } else {
                assert(entries.drop_first()[i - 1] == entries[i]);
                lemma_fold_args_decide(g, st2, entries.drop_first(), i - 1, raw);
            }
        },
    }
}

/// A block that holds an `args:` directive and builds successfully is
/// configured with exactly the resolution of that directive's arguments
/// against the regular-account registry, in order.
pub proof fn lemma_args_entry_decides(
    g: GlobalConfigV,
    entries: Seq<EntryV>,
    i: int,
    raw: Seq<ArgumentV>,
)
    requires
        0 <= i < entries.len(),
        entries[i] == EntryV::Arguments(raw),
    ensures
        build_spec(g, entries) matches Ok(c) ==> resolve_args(g.accounts, raw)
            == Ok::<Seq<ArgValue>, Seq<char>>(c.args),
{
    lemma_fold_args_decide(g, init_state(), entries, i, raw);
}

proof fn lemma_fold_no_sender(g: GlobalConfigV, st: BuildState, entries: Seq<EntryV>)
    requires
        st.sender is None,
        forall|k: int| 0 <= k < entries.len() ==> !(entries[k] is Sender),
    ensures
        build_fold(g, st, entries) matches Ok(st2) ==> st2.sender is None,
    decreases entries.len(),
{
    if entries.len() > 0 {
        match apply_entry(g, st, entries.first()) {
            Err(_) => {},
            Ok(st2) => {
                assert(forall|k: int|
                    0 <= k < entries.drop_first().len() ==> entries.drop_first()[k] == entries[k
                        + 1]);
                lemma_fold_no_sender(g, st2, entries.drop_first());
            },
        }
    }
}

/// A block without a `sender:` directive that builds successfully is
/// configured with the sender `default`.
pub proof fn lemma_default_sender(g: GlobalConfigV, entries: Seq<EntryV>)
    requires
        forall|k: int| 0 <= k < entries.len() ==> !(entries[k] is Sender),
    ensures
        build_spec(g, entries) matches Ok(c) ==> c.sender == "default"@,
{
    lemma_fold_no_sender(g, init_state(), entries);
}

proof fn lemma_fold_no_args(g: GlobalConfigV, st: BuildState, entries: Seq<EntryV>)
    requires
        st.args is None,
        forall|k: int| 0 <= k < entries.len() ==> !(entries[k] is Arguments),
    ensures
        build_fold(g, st, entries) matches Ok(st2) ==> st2.args is None,
    decreases entries.len(),
{
    if entries.len() > 0 {
        match apply_entry(g, st, entries.first()) {
            Err(_) => {},
            Ok(st2) => {
                assert(forall|k: int|
                    0 <= k < entries.drop_first().len() ==> entries.drop_first()[k] == entries[k
                        + 1]);
                lemma_fold_no_args(g, st2, entries.drop_first());
            },
        }
    }
}

/// A block without an `args:` directive that builds successfully is
/// configured with an empty argument list.
pub proof fn lemma_default_args(g: GlobalConfigV, entries: Seq<EntryV>)
    requires
        forall|k: int| 0 <= k < entries.len() ==> !(entries[k] is Arguments),
    ensures
        build_spec(g, entries) matches Ok(c) ==> c.args == Seq::<ArgValue>::empty(),
{
    lemma_fold_no_args(g, init_state(), entries);
}

} // verus!
