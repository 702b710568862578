//! The grammar model: argument definitions, subcommands, and the fluent builder.
use vstd::prelude::*;

use std::sync::Arc;

use crate::matches::{ArgMatches, ParseError};
use crate::matches::empty_collected;
use crate::semantics::{agrees, cluster, finalize, follow, parse_model, scan, take_option};
use crate::text::{same_text, starts_with_one, starts_with_two};

verus! {

/// A predicate over the raw value supplied to an option, implemented by the
/// users of the parser. `spec_accepts` states which values are acceptable;
/// `accepts` decides it at run time and must answer the same, so a validator
/// is a deterministic function of the value. A grammar shares each attached
/// validator through an `Arc`.
pub trait Validator {
    /// Whether `value` is acceptable.
    spec fn spec_accepts(&self, value: Seq<char>) -> bool;

    fn accepts(&self, value: &str) -> (r: bool)
        ensures
            r == self.spec_accepts(value@),
    ;
}

/// A validator that accepts every value.
pub struct AnyValue;

impl Validator for AnyValue {
    open spec fn spec_accepts(&self, value: Seq<char>) -> bool {
        true
    }

    fn accepts(&self, value: &str) -> (r: bool) {
        true
    }
}

/// One argument specification.
#[derive(Clone, Debug)]
pub struct Arg<C> {
    pub name: String,
    pub short: Option<char>,
    pub long: Option<String>,
    pub takes_value: bool,
    pub required: bool,
    pub default: Option<String>,
    pub validator: Option<Arc<C>>,
}

/// A grammar node: ordered argument definitions and named child grammars.
pub struct ArgParser<C> {
    args: Vec<Arg<C>>,
    subcommands: Vec<(String, ArgParser<C>)>,
}

/// Index of the first argument at or after `i` named `name`.
pub open spec fn find_name<C>(args: Seq<Arg<C>>, name: Seq<char>, i: int) -> Option<int>
    decreases args.len() - i,
{
    if i < 0 || i >= args.len() {
        None
    } else if args[i].name@ == name {
        Some(i)
    } else {
        find_name(args, name, i + 1)
    }
}

/// Index of the first argument at or after `i` whose long alias is `long`.
pub open spec fn find_long<C>(args: Seq<Arg<C>>, long: Seq<char>, i: int) -> Option<int>
    decreases args.len() - i,
{
    if i < 0 || i >= args.len() {
        None
    } else if args[i].long is Some && args[i].long->0@ == long {
        Some(i)
    } else {
        find_long(args, long, i + 1)
    }
}

/// Index of the first argument at or after `i` whose short alias is `c`.
pub open spec fn find_short<C>(args: Seq<Arg<C>>, c: char, i: int) -> Option<int>
    decreases args.len() - i,
{
    if i < 0 || i >= args.len() {
        None
    } else if args[i].short == Some(c) {
        Some(i)
    } else {
        find_short(args, c, i + 1)
    }
}

/// Index of the first subcommand entry at or after `i` registered under `name`.
pub open spec fn find_sub<C>(subs: Seq<(String, ArgParser<C>)>, name: Seq<char>, i: int) -> Option<int>
    decreases subs.len() - i,
{
    if i < 0 || i >= subs.len() {
        None
    } else if subs[i].0@ == name {
        Some(i)
    } else {
        find_sub(subs, name, i + 1)
    }
}

/// A freshly registered argument: a boolean flag with no alias, optional,
/// with neither default nor validator.
pub open spec fn fresh_arg<C>(a: Arg<C>, name: Seq<char>) -> bool {
    &&& a.name@ == name
    &&& a.short is None
    &&& a.long is None
    &&& !a.takes_value
    &&& !a.required
    &&& a.default is None
    &&& a.validator is None
}

/// `args` with the first argument named `name` replaced by `f` of it; unchanged
/// when no argument has that name.
pub open spec fn configure<C>(args: Seq<Arg<C>>, name: Seq<char>, f: spec_fn(Arg<C>) -> Arg<C>) -> Seq<Arg<C>> {
    match find_name(args, name, 0) {
        Some(i) => args.update(i, f(args[i])),
        None => args,
    }
}

impl<C> ArgParser<C> {
    /// The argument definitions, in registration order.
    pub closed spec fn spec_args(&self) -> Seq<Arg<C>> {
        self.args@
    }

    /// The subcommand entries, in registration order.
    pub closed spec fn spec_subs(&self) -> Seq<(String, ArgParser<C>)> {
        self.subcommands@
    }

    /// Position in `args` of the first argument named `name`.
    fn position_of(&self, name: &str) -> (r: Option<usize>)
        ensures
            match r {
                Some(i) => i < self.args@.len() && find_name(self.args@, name@, 0) == Some(i as int),
                None => find_name(self.args@, name@, 0) is None,
            },
    {
        let mut i: usize = 0;
        while i < self.args.len()
            invariant
                i <= self.args.len(),
                find_name(self.args@, name@, 0) == find_name(self.args@, name@, i as int),
            decreases self.args.len() - i,
        {
            if same_text(self.args[i].name.as_str(), name) {
                return Some(i);
            }
            i = i + 1;
        }
        None
    }

    /// An empty grammar.
    pub fn new() -> (r: Self)
        ensures
            r.spec_args().len() == 0,
            r.spec_subs().len() == 0,
    {
        ArgParser { args: Vec::new(), subcommands: Vec::new() }
    }

    /// Registers a new argument `name` as a plain optional flag.
    pub fn arg(self, name: &str) -> (r: Self)
        ensures
            r.spec_args().len() == self.spec_args().len() + 1,
            r.spec_args().subrange(0, self.spec_args().len() as int) == self.spec_args(),
            fresh_arg(r.spec_args().last(), name@),
            r.spec_subs() == self.spec_subs(),
    {
        let mut p = self;
        p.args.push(
            Arg {
                name: name.to_owned(),
                short: None,
                long: None,
                takes_value: false,
                required: false,
                default: None,
                validator: None,
            },
        );
        assert(p.args@.subrange(0, self.args@.len() as int) =~= self.args@);
        p
    }
    /// Sets the single-character alias of the first argument named `name`;
    /// no effect when no argument has that name.
    pub fn short(self, name: &str, short: char) -> (r: Self)
        ensures
            r.spec_subs() == self.spec_subs(),
            r.spec_args() == configure(self.spec_args(), name@, |a: Arg<C>| (Arg { short: Some(short), ..a })),
    {
        let mut p = self;
        if let Some(i) = p.position_of(name) {
            let mut a = p.args.remove(i);
            a.short = Some(short);
            p.args.insert(i, a);
            assert(p.args@ =~= self.args@.update(i as int, a));
        }
        p
    }

    /// Sets the long alias of the first argument named `name`; no effect when
    /// no argument has that name.
    pub fn long(self, name: &str, long: &str) -> (r: Self)
        ensures
            r.spec_subs() == self.spec_subs(),
            match find_name(self.spec_args(), name@, 0) {
                Some(i) => {
                    &&& r.spec_args() == self.spec_args().update(i, (Arg { long: r.spec_args()[i].long, ..self.spec_args()[i] }))
                    &&& r.spec_args()[i].long is Some
                    &&& r.spec_args()[i].long->0@ == long@
                },
                None => r.spec_args() == self.spec_args(),
            },
    {
        let mut p = self;
        if let Some(i) = p.position_of(name) {
            let mut a = p.args.remove(i);
            a.long = Some(long.to_owned());
            p.args.insert(i, a);
            assert(p.args@ =~= self.args@.update(i as int, a));
        }
        p
    }

    /// Marks the first argument named `name` as value-consuming; no effect
    /// when no argument has that name.
    pub fn takes_value(self, name: &str) -> (r: Self)
        ensures
            r.spec_subs() == self.spec_subs(),
            r.spec_args() == configure(self.spec_args(), name@, |a: Arg<C>| (Arg { takes_value: true, ..a })),
    {
        let mut p = self;
        if let Some(i) = p.position_of(name) {
            let mut a = p.args.remove(i);
            a.takes_value = true;
            p.args.insert(i, a);
            assert(p.args@ =~= self.args@.update(i as int, a));
        }
        p
    }

    /// Marks the first argument named `name` as required; no effect when no
    /// argument has that name.
    pub fn required(self, name: &str) -> (r: Self)
        ensures
            r.spec_subs() == self.spec_subs(),
            r.spec_args() == configure(self.spec_args(), name@, |a: Arg<C>| (Arg { required: true, ..a })),
    {
        let mut p = self;
        if let Some(i) = p.position_of(name) {
            let mut a = p.args.remove(i);
            a.required = true;
            p.args.insert(i, a);
            assert(p.args@ =~= self.args@.update(i as int, a));
        }
        p
    }

    /// Sets the fallback value of the first argument named `name`; no effect
    /// when no argument has that name.
    pub fn default(self, name: &str, default: &str) -> (r: Self)
        ensures
            r.spec_subs() == self.spec_subs(),
            match find_name(self.spec_args(), name@, 0) {
                Some(i) => {
                    &&& r.spec_args() == self.spec_args().update(i, (Arg { default: r.spec_args()[i].default, ..self.spec_args()[i] }))
                    &&& r.spec_args()[i].default is Some
                    &&& r.spec_args()[i].default->0@ == default@
                },
                None => r.spec_args() == self.spec_args(),
            },
    {
        let mut p = self;
        if let Some(i) = p.position_of(name) {
            let mut a = p.args.remove(i);
            a.default = Some(default.to_owned());
            p.args.insert(i, a);
            assert(p.args@ =~= self.args@.update(i as int, a));
        }
        p
    }

    /// Attaches `validator` to the first argument named `name`; no effect when
    /// no argument has that name.
    pub fn validator(self, name: &str, validator: C) -> (r: Self)
        ensures
            r.spec_subs() == self.spec_subs(),
            match find_name(self.spec_args(), name@, 0) {
                Some(i) => {
                    &&& r.spec_args() == self.spec_args().update(i, (Arg { validator: r.spec_args()[i].validator, ..self.spec_args()[i] }))
                    &&& r.spec_args()[i].validator is Some
                    &&& *r.spec_args()[i].validator->0 == validator
                },
                None => r.spec_args() == self.spec_args(),
            },
    {
        let mut p = self;
        if let Some(i) = p.position_of(name) {
            let mut a = p.args.remove(i);
            a.validator = Some(Arc::new(validator));
            p.args.insert(i, a);
            assert(p.args@ =~= self.args@.update(i as int, a));
        }
        p
    }
    /// Position in `subcommands` of the entry registered under `name`.
    fn sub_position(&self, name: &str) -> (r: Option<usize>)
        ensures
            match r {
                Some(j) => j < self.subcommands@.len() && find_sub(self.subcommands@, name@, 0) == Some(j as int),
                None => find_sub(self.subcommands@, name@, 0) is None,
            },
    {
        let mut j: usize = 0;
        while j < self.subcommands.len()
            invariant
                j <= self.subcommands.len(),
                find_sub(self.subcommands@, name@, 0) == find_sub(self.subcommands@, name@, j as int),
            decreases self.subcommands.len() - j,
        {
            if same_text(self.subcommands[j].0.as_str(), name) {
                return Some(j);
            }
            j = j + 1;
        }
        None
    }

    /// Registers `parser` as the grammar of subcommand `name`, replacing the
    /// grammar registered under that name before, if any.
    pub fn subcommand(self, name: &str, parser: ArgParser<C>) -> (r: Self)
        ensures
            r.spec_args() == self.spec_args(),
            match find_sub(self.spec_subs(), name@, 0) {
                Some(j) => r.spec_subs() == self.spec_subs().update(j, (self.spec_subs()[j].0, parser)),
                None => {
                    &&& r.spec_subs().len() == self.spec_subs().len() + 1
                    &&& r.spec_subs().subrange(0, self.spec_subs().len() as int) == self.spec_subs()
                    &&& r.spec_subs().last().0@ == name@
                    &&& r.spec_subs().last().1 == parser
                },
            },
    {
        let mut p = self;
        match p.sub_position(name) {
            Some(j) => {
                let (key, _replaced) = p.subcommands.remove(j);
                p.subcommands.insert(j, (key, parser));
                assert(p.subcommands@ =~= self.subcommands@.update(j as int, (self.subcommands@[j as int].0, parser)));
            },
            None => {
                p.subcommands.push((name.to_owned(), parser));
                assert(p.subcommands@.subrange(0, self.subcommands@.len() as int) =~= self.subcommands@);
            },
        }
        p
    }
}

impl<C: Validator> ArgParser<C> {
    /// Position in `args` of the first argument whose long alias is `long`.
    fn long_position(&self, long: &str) -> (r: Option<usize>)
        ensures
            match r {
                Some(i) => i < self.args@.len() && find_long(self.args@, long@, 0) == Some(i as int),
                None => find_long(self.args@, long@, 0) is None,
            },
    {
        let mut i: usize = 0;
        while i < self.args.len()
            invariant
                i <= self.args.len(),
                find_long(self.args@, long@, 0) == find_long(self.args@, long@, i as int),
            decreases self.args.len() - i,
        {
            match &self.args[i].long {
                Some(l) => {
                    if same_text(l.as_str(), long) {
                        return Some(i);
                    }
                },
                None => {},
            }
            i = i + 1;
        }
        None
    }

    /// Position in `args` of the first argument whose short alias is `c`.
    fn short_position(&self, c: char) -> (r: Option<usize>)
        ensures
            match r {
                Some(i) => i < self.args@.len() && find_short(self.args@, c, 0) == Some(i as int),
                None => find_short(self.args@, c, 0) is None,
            },
    {
        let mut i: usize = 0;
        while i < self.args.len()
            invariant
                i <= self.args.len(),
                find_short(self.args@, c, 0) == find_short(self.args@, c, i as int),
            decreases self.args.len() - i,
        {
            match self.args[i].short {
                Some(s) => {
                    if s == c {
                        return Some(i);
                    }
                },
                None => {},
            }
            i = i + 1;
        }
        None
    }

    /// Processes short-option cluster `args[i]`, where the parse began at
    /// `start`: the index of the first unconsumed token.
    fn match_cluster(&self, args: &[String], start: usize, i: usize, m: &mut ArgMatches) -> (r: Result<usize, ParseError>)
        requires
            start < i < args.len(),
        ensures
            match cluster(self.args@, args@.subrange(start as int, args@.len() as int), args@[i as int]@, 1, i + 1 - start, old(m)@) {
                Ok((st, n)) => r is Ok && r->Ok_0 == n + start && final(m)@ == st,
                Err(e) => r is Err && r->Err_0@ == e,
            },
    {
        let ghost toks = args@.subrange(start as int, args@.len() as int);
        let tok = args[i].as_str();
        let len = tok.unicode_len();
        let mut next: usize = i + 1;
        let mut k: usize = 1;
        while k < len
            invariant
                start < i < args.len(),
                toks == args@.subrange(start as int, args@.len() as int),
                tok@ == args@[i as int]@,
                len == tok@.len(),
                1 <= k,
                i + 1 <= next <= args.len(),
                cluster(self.args@, toks, tok@, 1, i + 1 - start, old(m)@)
                    == cluster(self.args@, toks, tok@, k as int, next - start, m@),
            decreases len - k,
        {
            let c = tok.get_char(k);
            match self.short_position(c) {
                None => {},
                Some(j) => {
                    assert(follow(toks, next - start) == follow(args@, next as int));
                    match Self::apply_option(&self.args[j], args, next, m) {
                        None => {
                            let label = tok.substring_char(k, k + 1);
                            assert(label@ =~= seq![c]);
                            return Err(ParseError::InvalidValue(label.to_owned()));
                        },
                        Some(used) => {
                            if used {
                                next = next + 1;
                            }
                        },
                    }
                },
            }
            k = k + 1;
        }
        Ok(next)
    }

    /// Applies defaults to, and checks the presence of, the required valued
    /// arguments.
    fn finish(&self, collected: ArgMatches) -> (r: Result<ArgMatches, ParseError>)
        ensures
            agrees(r, finalize(self.args@, collected@, 0)),
    {
        let mut m = collected;
        let ghost st0 = m@;
        let mut k: usize = 0;
        while k < self.args.len()
            invariant
                k <= self.args.len(),
                st0 == collected@,
                finalize(self.args@, st0, 0) == finalize(self.args@, m@, k as int),
            decreases self.args.len() - k,
        {
            let a = &self.args[k];
            let missing = match m.value_of(a.name.as_str()) {
                Some(_) => false,
                None => true,
            };
            if a.required && a.takes_value && missing {
                match &a.default {
                    Some(d) => m.put_value(&a.name, d),
                    None => return Err(ParseError::MissingRequiredArgument(a.name.clone())),
                }
            }
            k = k + 1;
        }
        Ok(m)
    }

    /// Parses `args[start..]`, whose first token is skipped.
    fn parse_from(self, args: &[String], start: usize) -> (r: Result<ArgMatches, ParseError>)
        requires
            start < args.len(),
        ensures
            agrees(r, parse_model(self, args@.subrange(start as int, args@.len() as int))),
        decreases args.len() - start,
    {
        let ghost toks = args@.subrange(start as int, args@.len() as int);
        let mut me = self;
        let mut m = ArgMatches::empty();
        let mut i: usize = start + 1;
        while i < args.len()
            invariant
                start < i,
                i <= args.len() + 1,
                start < args.len(),
                me == self,
                toks == args@.subrange(start as int, args@.len() as int),
                scan(self, toks, 1, empty_collected()) == scan(self, toks, i - start, m@),
            decreases args.len() - i,
        {
            let t = args[i].as_str();
            let n = t.unicode_len();
            if n >= 2 && t.get_char(0) == '-' && t.get_char(1) == '-' {
                assert(starts_with_two(toks[i - start]@, '-', '-'));
                let rest = t.substring_char(2, n);
                match me.long_position(rest) {
                    None => {
                        i = i + 1;
                    },
                    Some(j) => {
                        assert(follow(toks, i + 1 - start) == follow(args@, i + 1));
                        match Self::apply_option(&me.args[j], args, i + 1, &mut m) {
                            None => return Err(ParseError::InvalidValue(rest.to_owned())),
                            Some(used) => {
                                i = if used { i + 2 } else { i + 1 };
                            },
                        }
                    },
                }
            } else if n >= 1 && t.get_char(0) == '-' {
                assert(starts_with_one(toks[i - start]@, '-'));
                proof {
                    crate::semantics::lemma_cluster_advances(me.args@, toks, t@, 1, i + 1 - start, m@);
                }
                match me.match_cluster(args, start, i, &mut m) {
                    Err(e) => return Err(e),
                    Ok(nx) => {
                        i = nx;
                    },
                }
            } else {
                match me.sub_position(t) {
                    Some(j) => {
                        let (_, child) = me.subcommands.remove(j);
                        assert(toks.subrange(i - start, toks.len() as int) =~= args@.subrange(i as int, args@.len() as int));
                        return child.parse_from(args, i);
                    },
                    None => {
                        m.push_positional(&args[i]);
                        i = i + 1;
                    },
                }
            }
        }
        me.finish(m)
    }

    /// Matches `args` against this grammar. The first token (the program or
    /// subcommand name) is skipped. A token naming a subcommand hands the rest
    /// of the tokens, from that token on, to the subcommand's grammar, whose
    /// result is returned as it is.
    pub fn parse(self, args: &[String]) -> (r: Result<ArgMatches, ParseError>)
        ensures
            agrees(r, parse_model(self, args@)),
    {
        if args.len() == 0 {
            return self.finish(ArgMatches::empty());
        }
        assert(args@.subrange(0, args@.len() as int) =~= args@);
        self.parse_from(args, 0)
    }

    /// Applies matched option `a`, whose value, if it takes one, is the token
    /// at `next`: `Some(consumed)`, or `None` when the value is rejected.
    fn apply_option(a: &Arg<C>, args: &[String], next: usize, m: &mut ArgMatches) -> (r: Option<bool>)
        ensures
            match take_option(*a, follow(args@, next as int), old(m)@) {
                None => r is None,
                Some((st, used)) => r == Some(used) && final(m)@ == st,
            },
    {
        if !a.takes_value {
            m.set_flag(&a.name);
            return Some(false);
        }
        if next >= args.len() {
            return Some(false);
        }
        let v = &args[next];
        match &a.validator {
            Some(c) => {
                if !c.accepts(v.as_str()) {
                    return None;
                }
            },
            None => {},
        }
        m.put_value(&a.name, v);
        Some(true)
    }
}

} // verus!
