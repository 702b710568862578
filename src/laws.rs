//! Properties of parsing that hold for every grammar and token list.
use vstd::prelude::*;

use crate::grammar::{find_long, find_short, find_sub, Arg, ArgParser, Validator};
use crate::matches::{add_flag, empty_collected, key_index, lookup, put, Collected, Failure};
use crate::semantics::{cluster, finalize, follow, parse_model, scan, take_option};
use crate::text::{starts_with_one, starts_with_two};

verus! {

/// Parsing is deterministic: equal grammars given the same tokens produce the
/// same outcome.
pub proof fn lemma_parse_deterministic<C: Validator>(p: ArgParser<C>, q: ArgParser<C>, toks: Seq<String>)
    requires
        p == q,
    ensures
        parse_model(p, toks) == parse_model(q, toks),
{
}

/// A long option that names a flag records the flag and consumes nothing
/// else: scanning goes on at the very next token, whatever it is.
pub proof fn lemma_long_flag_keeps_next<C: Validator>(p: ArgParser<C>, toks: Seq<String>, i: int, st: Collected, j: int)
    requires
        1 <= i < toks.len(),
        starts_with_two(toks[i]@, '-', '-'),
        find_long(p.spec_args(), toks[i]@.subrange(2, toks[i]@.len() as int), 0) == Some(j),
        !p.spec_args()[j].takes_value,
    ensures
        scan(p, toks, i, st) == scan(p, toks, i + 1, (Collected { flags: add_flag(st.flags, p.spec_args()[j].name), ..st })),
{
}

/// A token naming a subcommand ends the parent's scan: the outcome is exactly
/// the subcommand grammar's parse of the tokens from that token on, and what
/// the parent collected before is dropped.
pub proof fn lemma_subcommand_takes_over<C: Validator>(p: ArgParser<C>, toks: Seq<String>, i: int, st: Collected, j: int)
    requires
        1 <= i < toks.len(),
        !starts_with_one(toks[i]@, '-'),
        find_sub(p.spec_subs(), toks[i]@, 0) == Some(j),
    ensures
        scan(p, toks, i, st) == match parse_model(p.spec_subs()[j].1, toks.subrange(i, toks.len() as int)) {
            Ok(m) => Ok::<(Collected, bool), Failure>((m, true)),
            Err(e) => Err(e),
        },
{
}

/// `idx` places each element of `a` at a position of `toks` past the first,
/// in strictly increasing order.
pub open spec fn placed_in_order(a: Seq<String>, toks: Seq<String>, idx: Seq<int>) -> bool {
    &&& idx.len() == a.len()
    &&& forall|k: int| 0 <= k < a.len() ==> 1 <= #[trigger] idx[k] < toks.len() && a[k] == toks[idx[k]]
    &&& forall|k1: int, k2: int| 0 <= k1 < k2 < a.len() ==> idx[k1] < idx[k2]
}

/// The positional tokens `a` appear in `toks` after the first token, in the
/// same relative order, and none of them looks like an option.
pub open spec fn positionals_in_order(a: Seq<String>, toks: Seq<String>) -> bool {
    &&& exists|idx: Seq<int>| placed_in_order(a, toks, idx)
    &&& forall|k: int| 0 <= k < a.len() ==> !starts_with_one(#[trigger] a[k]@, '-')
}

proof fn lemma_cluster_keeps_positionals<C: Validator>(
    args: Seq<Arg<C>>,
    toks: Seq<String>,
    tok: Seq<char>,
    k: int,
    next: int,
    st: Collected,
)
    ensures
        match cluster(args, toks, tok, k, next, st) {
            Ok((st2, _)) => st2.positionals == st.positionals,
            Err(_) => true,
        },
    decreases tok.len() - k,
{
    if k < 0 || k >= tok.len() {
    } else {
        match find_short(args, tok[k], 0) {
            None => lemma_cluster_keeps_positionals(args, toks, tok, k + 1, next, st),
            Some(j) => match take_option(args[j], follow(toks, next), st) {
                None => {},
                Some((st2, used)) => lemma_cluster_keeps_positionals(args, toks, tok, k + 1, if used { next + 1 } else { next }, st2),
            },
        }
    }
}

proof fn lemma_finalize_keeps_positionals<C>(args: Seq<Arg<C>>, st: Collected, k: int)
    ensures
        match finalize(args, st, k) {
            Ok(st2) => st2.positionals == st.positionals,
            Err(_) => true,
        },
    decreases args.len() - k,
{
    if k < 0 || k >= args.len() {
    } else {
        let a = args[k];
        if a.required && a.takes_value && crate::matches::lookup(st.values, a.name@) is None {
            match a.default {
                Some(d) => lemma_finalize_keeps_positionals(args, (Collected { values: crate::matches::put(st.values, a.name, d), ..st }), k + 1),
                None => {},
            }
        } else {
            lemma_finalize_keeps_positionals(args, st, k + 1)
        }
    }
}

proof fn lemma_scan_positionals<C: Validator>(p: ArgParser<C>, toks: Seq<String>, i: int, st: Collected, idx: Seq<int>)
    requires
        1 <= i,
        placed_in_order(st.positionals, toks, idx),
        forall|k: int| 0 <= k < idx.len() ==> #[trigger] idx[k] < i,
        forall|k: int| 0 <= k < st.positionals.len() ==> !starts_with_one(#[trigger] st.positionals[k]@, '-'),
    ensures
        match scan(p, toks, i, st) {
            Ok((st2, _)) => positionals_in_order(st2.positionals, toks),
            Err(_) => true,
        },
    decreases toks.len(), toks.len() + 1 - i,
{
    if i >= toks.len() {
    } else {
        let t = toks[i]@;
        if starts_with_two(t, '-', '-') {
            match find_long(p.spec_args(), t.subrange(2, t.len() as int), 0) {
                None => lemma_scan_positionals(p, toks, i + 1, st, idx),
                Some(j) => match take_option(p.spec_args()[j], follow(toks, i + 1), st) {
                    None => {},
                    Some((st2, used)) => lemma_scan_positionals(p, toks, if used { i + 2 } else { i + 1 }, st2, idx),
                },
            }
        } else if starts_with_one(t, '-') {
            crate::semantics::lemma_cluster_advances(p.spec_args(), toks, t, 1, i + 1, st);
            lemma_cluster_keeps_positionals(p.spec_args(), toks, t, 1, i + 1, st);
            match cluster(p.spec_args(), toks, t, 1, i + 1, st) {
                Err(_) => {},
                Ok((st2, n)) => lemma_scan_positionals(p, toks, n, st2, idx),
            }
        } else {
            match find_sub(p.spec_subs(), t, 0) {
                Some(j) => {
                    let sub = toks.subrange(i, toks.len() as int);
                    lemma_parse_positionals(p.spec_subs()[j].1, sub);
                    match parse_model(p.spec_subs()[j].1, sub) {
                        Ok(m) => {
                            let w = choose|w: Seq<int>| placed_in_order(m.positionals, sub, w);
                            let shifted = w.map_values(|x: int| x + i);
                            assert(placed_in_order(m.positionals, toks, shifted));
                        },
                        Err(_) => {},
                    }
                },
                None => {
                    let st2 = Collected { positionals: st.positionals.push(toks[i]), ..st };
                    let idx2 = idx.push(i);
                    assert(placed_in_order(st2.positionals, toks, idx2));
                    lemma_scan_positionals(p, toks, i + 1, st2, idx2);
                },
            }
        }
    }
}

/// Positional tokens come out in input order: the positionals of a parse are
/// input tokens after the first, in their relative input order, and none
/// of them looks like an option. This holds also when a subcommand took over.
pub proof fn lemma_parse_positionals<C: Validator>(p: ArgParser<C>, toks: Seq<String>)
    ensures
        match parse_model(p, toks) {
            Ok(st) => positionals_in_order(st.positionals, toks),
            Err(_) => true,
        },
    decreases toks.len(), toks.len() + 2,
{
    let e = empty_collected();
    assert(placed_in_order(e.positionals, toks, Seq::empty()));
    lemma_scan_positionals(p, toks, 1, e, Seq::empty());
    match scan(p, toks, 1, e) {
        Ok((st, false)) => lemma_finalize_keeps_positionals(p.spec_args(), st, 0),
        _ => {},
    }
}

/// Every recorded value is keyed by the name of a valued argument of `args`,
/// and every recorded flag is the name of a flag argument of `args`.
pub open spec fn kinds_respected<C>(args: Seq<Arg<C>>, st: Collected) -> bool {
    &&& forall|k: int| 0 <= k < st.values.len() ==> names_kind(args, (#[trigger] st.values[k]).0@, true)
    &&& forall|k: int| 0 <= k < st.flags.len() ==> names_kind(args, (#[trigger] st.flags[k])@, false)
}

/// Some argument of `args` is named `name` and takes a value exactly when
/// `valued`.
pub open spec fn names_kind<C>(args: Seq<Arg<C>>, name: Seq<char>, valued: bool) -> bool {
    exists|j: int| 0 <= j < args.len() && args[j].name@ == name && args[j].takes_value == valued
}

/// No two arguments of `args` share a name.
pub open spec fn names_unique<C>(args: Seq<Arg<C>>) -> bool {
    forall|i: int, j: int| 0 <= i < args.len() && 0 <= j < args.len() && #[trigger] args[i].name@ == #[trigger] args[j].name@ ==> i == j
}

/// No token after the first names a subcommand of `p`.
pub open spec fn no_subcommand_tokens<C>(p: ArgParser<C>, toks: Seq<String>) -> bool {
    forall|i: int| 1 <= i < toks.len() ==> find_sub(p.spec_subs(), (#[trigger] toks[i])@, 0) is None
}

proof fn lemma_key_index_in_range(values: Seq<(String, String)>, key: Seq<char>, i: int)
    ensures
        match key_index(values, key, i) {
            Some(j) => 0 <= j < values.len() && values[j].0@ == key,
            None => true,
        },
    decreases values.len() - i,
{
    if i < 0 || i >= values.len() {
    } else if values[i].0@ == key {
    } else {
        lemma_key_index_in_range(values, key, i + 1);
    }
}

proof fn lemma_long_in_range<C>(args: Seq<Arg<C>>, long: Seq<char>, i: int)
    ensures
        match find_long(args, long, i) {
            Some(j) => 0 <= j < args.len(),
            None => true,
        },
    decreases args.len() - i,
{
    if i < 0 || i >= args.len() {
    } else if args[i].long is Some && args[i].long->0@ == long {
    } else {
        lemma_long_in_range(args, long, i + 1);
    }
}

proof fn lemma_short_in_range<C>(args: Seq<Arg<C>>, c: char, i: int)
    ensures
        match find_short(args, c, i) {
            Some(j) => 0 <= j < args.len(),
            None => true,
        },
    decreases args.len() - i,
{
    if i < 0 || i >= args.len() {
    } else if args[i].short == Some(c) {
    } else {
        lemma_short_in_range(args, c, i + 1);
    }
}

/// Storing a value for valued argument `args[j]` keeps the kinds respected.
proof fn lemma_put_respects<C>(args: Seq<Arg<C>>, st: Collected, j: int, v: String)
    requires
        0 <= j < args.len(),
        args[j].takes_value,
        kinds_respected(args, st),
    ensures
        kinds_respected(args, (Collected { values: put(st.values, args[j].name, v), ..st })),
{
    lemma_key_index_in_range(st.values, args[j].name@, 0);
    let nv = put(st.values, args[j].name, v);
    assert forall|k: int| 0 <= k < nv.len() implies names_kind(args, (#[trigger] nv[k]).0@, true) by {
        if nv[k].0@ == args[j].name@ {
        } else {
            assert(nv[k] == st.values[k]);
        }
    }
}

/// Applying a matched option `args[j]` keeps the kinds respected.
proof fn lemma_option_respects<C: Validator>(args: Seq<Arg<C>>, j: int, following: Option<String>, st: Collected)
    requires
        0 <= j < args.len(),
        kinds_respected(args, st),
    ensures
        match take_option(args[j], following, st) {
            Some((st2, _)) => kinds_respected(args, st2),
            None => true,
        },
{
    let a = args[j];
    if !a.takes_value {
        let nf = add_flag(st.flags, a.name);
        assert forall|k: int| 0 <= k < nf.len() implies names_kind(args, (#[trigger] nf[k])@, false) by {
            if k < st.flags.len() {
                assert(nf[k] == st.flags[k]);
            } else {
                assert(nf[k] == a.name);
            }
        }
    } else {
        match following {
            None => {},
            Some(v) => lemma_put_respects(args, st, j, v),
        }
    }
}

proof fn lemma_cluster_respects<C: Validator>(
    args: Seq<Arg<C>>,
    toks: Seq<String>,
    tok: Seq<char>,
    k: int,
    next: int,
    st: Collected,
)
    requires
        kinds_respected(args, st),
    ensures
        match cluster(args, toks, tok, k, next, st) {
            Ok((st2, _)) => kinds_respected(args, st2),
            Err(_) => true,
        },
    decreases tok.len() - k,
{
    if k < 0 || k >= tok.len() {
    } else {
        lemma_short_in_range(args, tok[k], 0);
        match find_short(args, tok[k], 0) {
            None => lemma_cluster_respects(args, toks, tok, k + 1, next, st),
            Some(j) => {
                lemma_option_respects(args, j, follow(toks, next), st);
                match take_option(args[j], follow(toks, next), st) {
                    None => {},
                    Some((st2, used)) => lemma_cluster_respects(args, toks, tok, k + 1, if used { next + 1 } else { next }, st2),
                }
            },
        }
    }
}

proof fn lemma_finalize_respects<C>(args: Seq<Arg<C>>, st: Collected, k: int)
    requires
        kinds_respected(args, st),
    ensures
        match finalize(args, st, k) {
            Ok(st2) => kinds_respected(args, st2),
            Err(_) => true,
        },
    decreases args.len() - k,
{
    if k < 0 || k >= args.len() {
    } else {
        let a = args[k];
        if a.required && a.takes_value && lookup(st.values, a.name@) is None {
            match a.default {
                Some(d) => {
                    lemma_put_respects(args, st, k, d);
                    lemma_finalize_respects(args, (Collected { values: put(st.values, a.name, d), ..st }), k + 1);
                },
                None => {},
            }
        } else {
            lemma_finalize_respects(args, st, k + 1);
        }
    }
}

proof fn lemma_scan_respects<C: Validator>(p: ArgParser<C>, toks: Seq<String>, i: int, st: Collected)
    requires
        no_subcommand_tokens(p, toks),
        kinds_respected(p.spec_args(), st),
    ensures
        match scan(p, toks, i, st) {
            Ok((st2, delegated)) => !delegated && kinds_respected(p.spec_args(), st2),
            Err(_) => true,
        },
    decreases toks.len() + 1 - i,
{
    if i < 1 || i >= toks.len() {
    } else {
        let t = toks[i]@;
        let args = p.spec_args();
        if starts_with_two(t, '-', '-') {
            lemma_long_in_range(args, t.subrange(2, t.len() as int), 0);
            match find_long(args, t.subrange(2, t.len() as int), 0) {
                None => lemma_scan_respects(p, toks, i + 1, st),
                Some(j) => {
                    lemma_option_respects(args, j, follow(toks, i + 1), st);
                    match take_option(args[j], follow(toks, i + 1), st) {
                        None => {},
                        Some((st2, used)) => lemma_scan_respects(p, toks, if used { i + 2 } else { i + 1 }, st2),
                    }
                },
            }
        } else if starts_with_one(t, '-') {
            crate::semantics::lemma_cluster_advances(args, toks, t, 1, i + 1, st);
            lemma_cluster_respects(args, toks, t, 1, i + 1, st);
            match cluster(args, toks, t, 1, i + 1, st) {
                Err(_) => {},
                Ok((st2, n)) => lemma_scan_respects(p, toks, n, st2),
            }
        } else {
            assert(find_sub(p.spec_subs(), toks[i]@, 0) is None);
            lemma_scan_respects(p, toks, i + 1, (Collected { positionals: st.positionals.push(toks[i]), ..st }));
        }
    }
}

/// Flags and values never mix: in a grammar whose argument names are
/// distinct, parsing tokens that name no subcommand never stores a value for
/// a flag argument and never records a valued argument as a flag.
pub proof fn lemma_flags_and_values_disjoint<C: Validator>(p: ArgParser<C>, toks: Seq<String>)
    requires
        names_unique(p.spec_args()),
        no_subcommand_tokens(p, toks),
    ensures
        match parse_model(p, toks) {
            Ok(st) => {
                &&& forall|j: int, k: int|
                    0 <= j < p.spec_args().len() && 0 <= k < st.values.len() && p.spec_args()[j].name@ == (#[trigger] st.values[k]).0@
                        ==> #[trigger] p.spec_args()[j].takes_value
                &&& forall|j: int, k: int|
                    0 <= j < p.spec_args().len() && 0 <= k < st.flags.len() && p.spec_args()[j].name@ == (#[trigger] st.flags[k])@
                        ==> !#[trigger] p.spec_args()[j].takes_value
            },
            Err(_) => true,
        },
{
    let args = p.spec_args();
    let e = empty_collected();
    lemma_scan_respects(p, toks, 1, e);
    match scan(p, toks, 1, e) {
        Ok((st, false)) => {
            lemma_finalize_respects(args, st, 0);
            match finalize(args, st, 0) {
                Ok(st2) => {
                    assert forall|j: int, k: int|
                        0 <= j < args.len() && 0 <= k < st2.values.len() && args[j].name@ == (#[trigger] st2.values[k]).0@
                            implies #[trigger] args[j].takes_value by {
                        assert(names_kind(args, st2.values[k].0@, true));
                        let j2 = choose|j2: int| 0 <= j2 < args.len() && args[j2].name@ == st2.values[k].0@ && args[j2].takes_value == true;
                        assert(args[j].name@ == args[j2].name@);
                    }
                    assert forall|j: int, k: int|
                        0 <= j < args.len() && 0 <= k < st2.flags.len() && args[j].name@ == (#[trigger] st2.flags[k])@
                            implies !#[trigger] args[j].takes_value by {
                        assert(names_kind(args, st2.flags[k]@, false));
                        let j2 = choose|j2: int| 0 <= j2 < args.len() && args[j2].name@ == st2.flags[k]@ && args[j2].takes_value == false;
                        assert(args[j].name@ == args[j2].name@);
                    }
                },
                Err(_) => {},
            }
        },
        _ => {},
    }
}

} // verus!
