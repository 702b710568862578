//! What a parse returns, stated as spec functions over the grammar and tokens.
use vstd::prelude::*;

use crate::grammar::{find_long, find_short, find_sub, Arg, ArgParser, Validator};
use crate::matches::{add_flag, empty_collected, lookup, put, ArgMatches, Collected, Failure, ParseError};
use crate::text::{starts_with_one, starts_with_two};

verus! {

/// Whether argument `a` accepts `value`: always, when it has no validator.
pub open spec fn passes<C: Validator>(a: Arg<C>, value: Seq<char>) -> bool {
    match a.validator {
        Some(c) => c.spec_accepts(value),
        None => true,
    }
}

/// The token at `n`, if there is one.
pub open spec fn follow(toks: Seq<String>, n: int) -> Option<String> {
    if 0 <= n < toks.len() {
        Some(toks[n])
    } else {
        None
    }
}

/// The effect of matching option `a` when `following` is the next token:
/// the new collection and whether `following` was consumed as the value, or
/// `None` when the validator rejects the value.
pub open spec fn take_option<C: Validator>(a: Arg<C>, following: Option<String>, st: Collected) -> Option<(Collected, bool)> {
    if !a.takes_value {
        Some(((Collected { flags: add_flag(st.flags, a.name), ..st }), false))
    } else {
        match following {
            None => Some((st, false)),
            Some(v) => if passes(a, v@) {
                Some(((Collected { values: put(st.values, a.name, v), ..st }), true))
            } else {
                None
            },
        }
    }
}

/// Processes the characters of short-option cluster `tok` from position `k`
/// on, with `next` the index of the first unconsumed token: the collection
/// and the new value of `next`.
pub open spec fn cluster<C: Validator>(
    args: Seq<Arg<C>>,
    toks: Seq<String>,
    tok: Seq<char>,
    k: int,
    next: int,
    st: Collected,
) -> Result<(Collected, int), Failure>
    decreases tok.len() - k,
{
    if k < 0 || k >= tok.len() {
        Ok((st, next))
    } else {
        match find_short(args, tok[k], 0) {
            None => cluster(args, toks, tok, k + 1, next, st),
            Some(j) => match take_option(args[j], follow(toks, next), st) {
                None => Err(Failure::InvalidValue(seq![tok[k]])),
                Some((st2, used)) => cluster(args, toks, tok, k + 1, if used { next + 1 } else { next }, st2),
            },
        }
    }
}

/// Scans the tokens from index `i` on: the collection, and whether a
/// subcommand took over (its own result is then the collection).
pub open spec fn scan<C: Validator>(p: ArgParser<C>, toks: Seq<String>, i: int, st: Collected) -> Result<(Collected, bool), Failure>
    decreases toks.len(), toks.len() + 1 - i,
    via scan_decreases::<C>
{
    if i < 1 || i >= toks.len() {
        Ok((st, false))
    } else {
        let t = toks[i]@;
        if starts_with_two(t, '-', '-') {
            let rest = t.subrange(2, t.len() as int);
            match find_long(p.spec_args(), rest, 0) {
                None => scan(p, toks, i + 1, st),
                Some(j) => match take_option(p.spec_args()[j], follow(toks, i + 1), st) {
                    None => Err(Failure::InvalidValue(rest)),
                    Some((st2, used)) => scan(p, toks, if used { i + 2 } else { i + 1 }, st2),
                },
            }
        } else if starts_with_one(t, '-') {
            match cluster(p.spec_args(), toks, t, 1, i + 1, st) {
                Err(e) => Err(e),
                Ok((st2, n)) => scan(p, toks, n, st2),
            }
        } else {
            match find_sub(p.spec_subs(), t, 0) {
                Some(j) => match parse_model(p.spec_subs()[j].1, toks.subrange(i, toks.len() as int)) {
                    Ok(m) => Ok((m, true)),
                    Err(e) => Err(e),
                },
                None => scan(p, toks, i + 1, (Collected { positionals: st.positionals.push(toks[i]), ..st })),
            }
        }
    }
}

/// Lemma: a cluster consumes tokens only forward, and none past the end.
pub proof fn lemma_cluster_advances<C: Validator>(
    args: Seq<Arg<C>>,
    toks: Seq<String>,
    tok: Seq<char>,
    k: int,
    next: int,
    st: Collected,
)
    requires
        next <= toks.len(),
    ensures
        match cluster(args, toks, tok, k, next, st) {
            Ok((_, n)) => next <= n <= toks.len(),
            Err(_) => true,
        },
    decreases tok.len() - k,
{
    if k < 0 || k >= tok.len() {
    } else {
        match find_short(args, tok[k], 0) {
            None => lemma_cluster_advances(args, toks, tok, k + 1, next, st),
            Some(j) => match take_option(args[j], follow(toks, next), st) {
                None => {},
                Some((st2, used)) => lemma_cluster_advances(args, toks, tok, k + 1, if used { next + 1 } else { next }, st2),
            },
        }
    }
}

#[via_fn]
proof fn scan_decreases<C: Validator>(p: ArgParser<C>, toks: Seq<String>, i: int, st: Collected) {
    if i < 1 || i >= toks.len() {
    } else {
        let t = toks[i]@;
        if starts_with_two(t, '-', '-') {
        } else if starts_with_one(t, '-') {
            lemma_cluster_advances(p.spec_args(), toks, t, 1, i + 1, st);
        } else {
        }
    }
}

/// Applies defaults to, and checks the presence of, the required valued
/// arguments from index `k` on.
pub open spec fn finalize<C>(args: Seq<Arg<C>>, st: Collected, k: int) -> Result<Collected, Failure>
    decreases args.len() - k,
{
    if k < 0 || k >= args.len() {
        Ok(st)
    } else {
        let a = args[k];
        if a.required && a.takes_value && lookup(st.values, a.name@) is None {
            match a.default {
                Some(d) => finalize(args, (Collected { values: put(st.values, a.name, d), ..st }), k + 1),
                None => Err(Failure::MissingRequiredArgument(a.name@)),
            }
        } else {
            finalize(args, st, k + 1)
        }
    }
}

/// The result of parsing `toks` (whose first token is skipped) with grammar `p`.
pub open spec fn parse_model<C: Validator>(p: ArgParser<C>, toks: Seq<String>) -> Result<Collected, Failure>
    decreases toks.len(), toks.len() + 2,
{
    match scan(p, toks, 1, empty_collected()) {
        Err(e) => Err(e),
        Ok((st, true)) => Ok(st),
        Ok((st, false)) => finalize(p.spec_args(), st, 0),
    }
}

/// Whether a parse call's result is the modelled outcome `m`.
pub open spec fn agrees(r: Result<ArgMatches, ParseError>, m: Result<Collected, Failure>) -> bool {
    match r {
        Ok(a) => m is Ok && a@ == m->Ok_0,
        Err(e) => m is Err && e@ == m->Err_0,
    }
}

} // verus!
