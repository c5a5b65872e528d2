//! Python 3.11's `argparse` for the small parsers of the FASM tools,
//! described declaratively by an [`ArgumentParser`] of [`Argument`]s:
//! `-h/--help`, `store_true` flags, `store` options (with an optional
//! `nullable_string` type), positionals with `nargs=None` or `nargs='?'`,
//! required options and defaults.
//!
//! Parsing follows `_parse_known_args` step by step: the `O`/`A`/`-`
//! classes of the arguments, `_parse_optional`, `_get_option_tuples`,
//! `consume_optional`, and `consume_positionals` with the backtracking
//! order of `_match_arguments_partial`'s regular expressions. So
//! unambiguous prefixes (`--canon`), `--opt=value`, `--`, `-h` anywhere,
//! repeated options (the last one wins), negative numbers as values and
//! every error message behave as in Python. [`ArgumentParser::format_help`]
//! and [`ArgumentParser::format_usage`] reproduce `HelpFormatter`'s output,
//! line wrapping at the terminal width included.
//!
//! [`parse_args`], [`format_help`], [`format_usage`] and [`format_error`]
//! are the parser of the `fasm` tool:
//!
//! ```python
//! parser = argparse.ArgumentParser('FASM tool')
//! parser.add_argument('file', help='Filename to process')
//! parser.add_argument('--canonical', action='store_true', help=...)
//! parser.add_argument('--parser', type=nullable_string, help=...)
//! ```

use vstd::prelude::*;

use crate::pystr::{opt_seq, repr, spec_partition_eq, PyStr};
use crate::text::{chars_of, code_points, code_points_of, push_all, push_str, str_eq, string_of};
use crate::unicode::{decimal_value, spec_decimal_value};

pub mod format;
pub mod tool_args;

use format::{spec_format_error, spec_format_help, spec_format_usage};

verus! {

/// How many argument strings an argument consumes (`nargs`).
#[derive(Clone, Copy, PartialEq, Eq, Debug, Structural)]
pub enum Nargs {
    /// `nargs=0` (`store_true`, help).
    Zero,
    /// `nargs=None`: exactly one.
    One,
    /// `nargs='?'`: zero or one.
    Optional,
}

/// What an argument does (`action`).
#[derive(Clone, Copy, PartialEq, Eq, Debug, Structural)]
pub enum Kind {
    /// `-h/--help`: print the help and exit.
    Help,
    /// `action='store_true'`.
    StoreTrue,
    /// `action='store'` (no type).
    Store,
    /// `action='store'` with `type=nullable_string` (an empty value is
    /// `None`).
    StoreNullable,
}

/// One argument (`parser.add_argument(...)`).
#[derive(Clone, PartialEq, Eq, Debug)]
pub struct Argument {
    /// The option strings, empty for a positional argument.
    pub option_strings: Vec<&'static str>,
    /// The attribute name in the namespace.
    pub dest: &'static str,
    /// The action.
    pub kind: Kind,
    /// The number of values.
    pub nargs: Nargs,
    /// `required=True` (always for a positional with `nargs=None`).
    pub required: bool,
    /// The default value (`None` if absent).
    pub default: Option<PyStr>,
    /// The help text.
    pub help: &'static str,
}

/// The name of what `str::to_uppercase` returns for a text.
pub uninterp spec fn uppercase(s: Seq<char>) -> Seq<char>;

/// `s.to_uppercase()`: the Unicode upper case of `s`, a function of `s`
/// alone; nothing more is stated of it.
#[verifier::external_body]
fn to_uppercase(s: &str) -> (r: String)
    ensures
        r@ == uppercase(s@),
{
    s.to_uppercase()
}

/// The texts of string slices.
pub open spec fn str_views(v: Seq<&'static str>) -> Seq<Seq<char>> {
    v.map_values(|s: &'static str| s@)
}

/// The texts of character vectors.
pub open spec fn char_views(v: Seq<Vec<char>>) -> Seq<Seq<char>> {
    v.map_values(|s: Vec<char>| s@)
}

/// `sep.join(parts)`.
pub open spec fn join<T>(parts: Seq<Seq<T>>, sep: Seq<T>) -> Seq<T>
    decreases parts.len(),
{
    if parts.len() == 0 {
        seq![]
    } else if parts.len() == 1 {
        parts[0]
    } else {
        parts[0] + sep + join(parts.drop_first(), sep)
    }
}

/// `sep.join(parts)`.
pub fn join_chars(parts: &Vec<Vec<char>>, sep: &str) -> (r: Vec<char>)
    ensures
        r@ == join(char_views(parts@), sep@),
{
    let ghost all = char_views(parts@);
    let sep_chars = chars_of(sep);
    let mut out: Vec<char> = Vec::new();
    if parts.len() == 0 {
        return out;
    }
    push_all(&mut out, &parts[0]);
    let mut i: usize = 1;
    proof {
        lemma_join_rest(all, sep@);
        assert(all.skip(1) =~= all.drop_first());
        assert(all[0] == parts@[0]@);
    }
    while i < parts.len()
        invariant
            1 <= i <= parts@.len(),
            all == char_views(parts@),
            sep_chars@ == sep@,
            join(all, sep@) == out@ + join_rest(all.skip(i as int), sep@),
        decreases parts@.len() - i,
    {
        proof {
            lemma_join_split(all, sep@, i as int);
        }
        assert(all.skip(i as int)[0] == parts@[i as int]@);
        assert(all.skip(i as int).drop_first() =~= all.skip(i + 1));
        let ghost before = out@;
        push_all(&mut out, &sep_chars);
        push_all(&mut out, &parts[i]);
        assert(before + (sep@ + parts@[i as int]@ + join_rest(all.skip(i + 1), sep@)) =~= out@
            + join_rest(all.skip(i + 1), sep@));
        i = i + 1;
    }
    assert(all.skip(i as int) =~= Seq::<Seq<char>>::empty());
    assert(out@ + Seq::<char>::empty() =~= out@);
    out
}

/// Each of `parts` preceded by `sep`.
pub open spec fn join_rest<T>(parts: Seq<Seq<T>>, sep: Seq<T>) -> Seq<T>
    decreases parts.len(),
{
    if parts.len() == 0 {
        seq![]
    } else {
        sep + parts[0] + join_rest(parts.drop_first(), sep)
    }
}

proof fn lemma_join_rest<T>(parts: Seq<Seq<T>>, sep: Seq<T>)
    requires
        parts.len() >= 1,
    ensures
        join(parts, sep) == parts[0] + join_rest(parts.drop_first(), sep),
    decreases parts.len(),
{
    if parts.len() == 1 {
        assert(parts.drop_first() =~= Seq::<Seq<T>>::empty());
        assert(parts[0] + Seq::<T>::empty() =~= parts[0]);
    } else {
        lemma_join_rest(parts.drop_first(), sep);
        assert(parts.drop_first()[0] == parts[1]);
        assert(parts.drop_first().drop_first() =~= parts.drop_first().drop_first());
        assert(parts[0] + sep + (parts[1] + join_rest(parts.drop_first().drop_first(), sep))
            =~= parts[0] + (sep + parts[1] + join_rest(parts.drop_first().drop_first(), sep)));
    }
}

proof fn lemma_join_split<T>(parts: Seq<Seq<T>>, sep: Seq<T>, i: int)
    requires
        1 <= i < parts.len(),
    ensures
        join_rest(parts.skip(i), sep) == sep + parts[i] + join_rest(parts.skip(i + 1), sep),
{
    assert(parts.skip(i).drop_first() =~= parts.skip(i + 1));
}

impl Argument {
    /// `-h, --help` (added by `ArgumentParser` itself).
    pub fn help() -> (r: Self)
        ensures
            r.option_strings@ == seq!["-h", "--help"],
            r.dest == "help",
            r.kind == Kind::Help,
            r.nargs == Nargs::Zero,
            !r.required,
            r.default is None,
            r.help == "show this help message and exit",
    {
        let mut option_strings: Vec<&'static str> = Vec::new();
        option_strings.push("-h");
        option_strings.push("--help");
        Argument {
            option_strings,
            dest: "help",
            kind: Kind::Help,
            nargs: Nargs::Zero,
            required: false,
            default: None,
            help: "show this help message and exit",
        }
    }

    /// `add_argument(option, action='store_true', help=help)`.
    pub fn flag(option: &'static str, dest: &'static str, help: &'static str) -> (r: Self)
        ensures
            r.option_strings@ == seq![option],
            r.dest == dest,
            r.kind == Kind::StoreTrue,
            r.nargs == Nargs::Zero,
            !r.required,
            r.default is None,
            r.help == help,
    {
        let mut option_strings: Vec<&'static str> = Vec::new();
        option_strings.push(option);
        Argument {
            option_strings,
            dest,
            kind: Kind::StoreTrue,
            nargs: Nargs::Zero,
            required: false,
            default: None,
            help,
        }
    }

    /// `add_argument(option, help=help)`.
    pub fn option(option: &'static str, dest: &'static str, help: &'static str) -> (r: Self)
        ensures
            r.option_strings@ == seq![option],
            r.dest == dest,
            r.kind == Kind::Store,
            r.nargs == Nargs::One,
            !r.required,
            r.default is None,
            r.help == help,
    {
        let mut option_strings: Vec<&'static str> = Vec::new();
        option_strings.push(option);
        Argument {
            option_strings,
            dest,
            kind: Kind::Store,
            nargs: Nargs::One,
            required: false,
            default: None,
            help,
        }
    }

    /// `add_argument(dest, help=help)`.
    pub fn positional(dest: &'static str, help: &'static str) -> (r: Self)
        ensures
            r.option_strings@ == Seq::<&'static str>::empty(),
            r.dest == dest,
            r.kind == Kind::Store,
            r.nargs == Nargs::One,
            r.required,
            r.default is None,
            r.help == help,
    {
        Argument {
            option_strings: Vec::new(),
            dest,
            kind: Kind::Store,
            nargs: Nargs::One,
            required: true,
            default: None,
            help,
        }
    }

    /// `required=...`.
    pub fn required(self, required: bool) -> (r: Self)
        ensures
            r == (Argument { required, ..self }),
    {
        let mut a = self;
        a.required = required;
        a
    }

    /// `default=...`.
    pub fn default(self, default: PyStr) -> (r: Self)
        ensures
            r == (Argument { default: Some(default), ..self }),
    {
        let mut a = self;
        a.default = Some(default);
        a
    }

    /// `nargs='?'` (a positional is then not required).
    pub fn optional(self) -> (r: Self)
        ensures
            r == (Argument {
                nargs: Nargs::Optional,
                required: if self.option_strings@.len() == 0 {
                    false
                } else {
                    self.required
                },
                ..self
            }),
    {
        let mut a = self;
        a.nargs = Nargs::Optional;
        if a.option_strings.len() == 0 {
            a.required = false;
        }
        a
    }

    /// `type=nullable_string`.
    pub fn nullable(self) -> (r: Self)
        ensures
            r == (Argument { kind: Kind::StoreNullable, ..self }),
    {
        let mut a = self;
        a.kind = Kind::StoreNullable;
        a
    }

    /// A positional argument has no option strings.
    pub fn is_positional(&self) -> (r: bool)
        ensures
            r == is_positional(*self),
    {
        self.option_strings.len() == 0
    }

    /// The default metavar: `dest` for a positional, `dest.upper()` for
    /// an option.
    pub fn metavar(&self) -> (r: Vec<char>)
        ensures
            r@ == metavar(*self),
    {
        if self.is_positional() {
            chars_of(self.dest)
        } else {
            let u = to_uppercase(self.dest);
            chars_of(u.as_str())
        }
    }

    /// `_format_args()`.
    pub fn format_args(&self) -> (r: Vec<char>)
        ensures
            r@ == format_args(*self),
    {
        match self.nargs {
            Nargs::Zero => Vec::new(),
            Nargs::One => self.metavar(),
            Nargs::Optional => {
                let mut out: Vec<char> = Vec::new();
                out.push('[');
                let m = self.metavar();
                push_all(&mut out, &m);
                out.push(']');
                assert(out@ =~= seq!['['] + m@ + seq![']']);
                out
            },
        }
    }

    /// `_get_action_name()`.
    pub fn name(&self) -> (r: Vec<char>)
        ensures
            r@ == action_name(*self),
    {
        if self.is_positional() {
            self.metavar()
        } else {
            let parts = self.option_texts();
            proof {
                reveal_strlit("/");
            }
            assert("/"@ =~= seq!['/']);
            join_chars(&parts, "/")
        }
    }

    /// The characters of every option string.
    fn option_texts(&self) -> (r: Vec<Vec<char>>)
        ensures
            char_views(r@) == str_views(self.option_strings@),
    {
        let mut out: Vec<Vec<char>> = Vec::new();
        let mut i: usize = 0;
        while i < self.option_strings.len()
            invariant
                0 <= i <= self.option_strings@.len(),
                char_views(out@) == str_views(self.option_strings@.take(i as int)),
            decreases self.option_strings@.len() - i,
        {
            let ghost before = out@;
            out.push(chars_of(self.option_strings[i]));
            assert(char_views(out@) =~= char_views(before).push(self.option_strings@[i as int]@));
            assert(self.option_strings@.take(i + 1) =~= self.option_strings@.take(i as int).push(
                self.option_strings@[i as int],
            ));
            assert(str_views(self.option_strings@.take(i + 1)) =~= str_views(
                self.option_strings@.take(i as int),
            ).push(self.option_strings@[i as int]@));
            i = i + 1;
        }
        assert(self.option_strings@.take(i as int) =~= self.option_strings@);
        out
    }

    /// The part of the usage message (`_format_actions_usage`).
    pub fn usage_part(&self) -> (r: Vec<char>)
        ensures
            r@ == usage_part(*self),
    {
        if self.is_positional() {
            return self.format_args();
        }
        let mut part = chars_of(self.option_strings[0]);
        if self.nargs != Nargs::Zero {
            part.push(' ');
            let f = self.format_args();
            push_all(&mut part, &f);
        }
        if self.required {
            part
        } else {
            let mut out: Vec<char> = Vec::new();
            out.push('[');
            push_all(&mut out, &part);
            out.push(']');
            out
        }
    }

    /// `_format_action_invocation()`.
    pub fn invocation(&self) -> (r: Vec<char>)
        ensures
            r@ == invocation(*self),
    {
        if self.is_positional() {
            self.metavar()
        } else if self.nargs == Nargs::Zero {
            let parts = self.option_texts();
            proof {
                reveal_strlit(", ");
            }
            assert(", "@ =~= seq![',', ' ']);
            join_chars(&parts, ", ")
        } else {
            let args = self.format_args();
            let mut parts: Vec<Vec<char>> = Vec::new();
            let mut i: usize = 0;
            while i < self.option_strings.len()
                invariant
                    0 <= i <= self.option_strings@.len(),
                    args@ == format_args(*self),
                    char_views(parts@) == option_with_args(self.option_strings@.take(i as int), args@),
                decreases self.option_strings@.len() - i,
            {
                let mut p = chars_of(self.option_strings[i]);
                p.push(' ');
                push_all(&mut p, &args);
                assert(p@ =~= self.option_strings@[i as int]@ + seq![' '] + args@);
                let ghost before = parts@;
                parts.push(p);
                assert(char_views(parts@) =~= char_views(before).push(p@));
                assert(self.option_strings@.take(i + 1) =~= self.option_strings@.take(i as int).push(
                    self.option_strings@[i as int],
                ));
                assert(option_with_args(self.option_strings@.take(i + 1), args@) =~= option_with_args(
                    self.option_strings@.take(i as int),
                    args@,
                ).push(p@));
                i = i + 1;
            }
            assert(self.option_strings@.take(i as int) =~= self.option_strings@);
            proof {
                reveal_strlit(", ");
            }
            assert(", "@ =~= seq![',', ' ']);
            join_chars(&parts, ", ")
        }
    }
}

/// A positional argument has no option strings.
pub open spec fn is_positional(a: Argument) -> bool {
    a.option_strings@.len() == 0
}

/// The default metavar of `a`.
pub open spec fn metavar(a: Argument) -> Seq<char> {
    if is_positional(a) {
        a.dest@
    } else {
        uppercase(a.dest@)
    }
}

/// `_format_args()` of `a`.
pub open spec fn format_args(a: Argument) -> Seq<char> {
    match a.nargs {
        Nargs::Zero => seq![],
        Nargs::One => metavar(a),
        Nargs::Optional => seq!['['] + metavar(a) + seq![']'],
    }
}

/// `_get_action_name()` of `a`: its metavar or its option strings joined
/// by `/`.
pub open spec fn action_name(a: Argument) -> Seq<char> {
    if is_positional(a) {
        metavar(a)
    } else {
        join(str_views(a.option_strings@), seq!['/'])
    }
}

/// The usage part of `a`: `[--opt METAVAR]`, `--opt` or a positional's
/// `_format_args()`.
pub open spec fn usage_part(a: Argument) -> Seq<char> {
    if is_positional(a) {
        format_args(a)
    } else {
        let part = if a.nargs == Nargs::Zero {
            a.option_strings@[0]@
        } else {
            a.option_strings@[0]@ + seq![' '] + format_args(a)
        };
        if a.required {
            part
        } else {
            seq!['['] + part + seq![']']
        }
    }
}

/// Each option string followed by a space and `args`.
pub open spec fn option_with_args(options: Seq<&'static str>, args: Seq<char>) -> Seq<Seq<char>> {
    options.map_values(|o: &'static str| o@ + seq![' '] + args)
}

/// `_format_action_invocation()` of `a`.
pub open spec fn invocation(a: Argument) -> Seq<char> {
    if is_positional(a) {
        metavar(a)
    } else if a.nargs == Nargs::Zero {
        join(str_views(a.option_strings@), seq![',', ' '])
    } else {
        join(option_with_args(a.option_strings@, format_args(a)), seq![',', ' '])
    }
}


// ---------------------------------------------------------------------
// Values.

/// A parsed value.
#[derive(Clone, PartialEq, Eq, Debug)]
pub enum Value {
    /// Python's `None`.
    Unset,
    /// A `store_true` flag.
    Bool(bool),
    /// A string.
    Str(PyStr),
}

/// A parsed value over plain values.
pub enum ValueView {
    /// Python's `None`.
    Unset,
    /// A flag.
    Bool(bool),
    /// A string's code points.
    Str(Seq<u32>),
}

/// The plain view of a value.
pub open spec fn value_view(v: Value) -> ValueView {
    match v {
        Value::Unset => ValueView::Unset,
        Value::Bool(b) => ValueView::Bool(b),
        Value::Str(s) => ValueView::Str(s@),
    }
}

/// The value of `dest` in `entries` (`None` if there is none).
pub open spec fn lookup_value(entries: Seq<(Seq<char>, ValueView)>, dest: Seq<char>) -> ValueView
    decreases entries.len(),
{
    if entries.len() == 0 {
        ValueView::Unset
    } else if entries[0].0 == dest {
        entries[0].1
    } else {
        lookup_value(entries.drop_first(), dest)
    }
}

/// `entries` with the value of `dest` replaced by `v`, or `(dest, v)`
/// added at the end.
pub open spec fn set_value(entries: Seq<(Seq<char>, ValueView)>, dest: Seq<char>, v: ValueView) -> Seq<
    (Seq<char>, ValueView),
>
    decreases entries.len(),
{
    if entries.len() == 0 {
        seq![(dest, v)]
    } else if entries[0].0 == dest {
        seq![(dest, v)] + entries.drop_first()
    } else {
        seq![entries[0]] + set_value(entries.drop_first(), dest, v)
    }
}

/// Setting the value of an argument: reading it back gives the value
/// set last, and every other argument keeps its value (a repeated option:
/// the last one wins).
pub proof fn lemma_set_then_lookup(
    entries: Seq<(Seq<char>, ValueView)>,
    dest: Seq<char>,
    v: ValueView,
    other: Seq<char>,
)
    ensures
        lookup_value(set_value(entries, dest, v), dest) == v,
        other != dest ==> lookup_value(set_value(entries, dest, v), other) == lookup_value(entries, other),
    decreases entries.len(),
{
    let r = set_value(entries, dest, v);
    if entries.len() == 0 {
        assert(r[0] == (dest, v));
        assert(r.drop_first().len() == 0);
        assert(lookup_value(r.drop_first(), other) == ValueView::Unset);
    } else if entries[0].0 == dest {
        assert(r[0] == (dest, v));
        assert(r.drop_first() =~= entries.drop_first());
    } else {
        lemma_set_then_lookup(entries.drop_first(), dest, v, other);
        assert(r[0] == entries[0]);
        assert(r.drop_first() =~= set_value(entries.drop_first(), dest, v));
    }
}

/// The plain views of named values.
pub open spec fn entry_views(v: Seq<(&'static str, Value)>) -> Seq<(Seq<char>, ValueView)> {
    v.map_values(|e: (&'static str, Value)| (e.0@, value_view(e.1)))
}

/// The parsed command line (argparse's `Namespace`): the value of every
/// argument but help, by `dest`.
#[derive(Clone, PartialEq, Eq, Debug)]
pub struct Values(Vec<(&'static str, Value)>);

impl Default for Values {
    /// No value.
    fn default() -> (r: Self)
        ensures
            r.entries() == Seq::<(Seq<char>, ValueView)>::empty(),
    {
        let r = Values(Vec::new());
        assert(r.entries() =~= Seq::<(Seq<char>, ValueView)>::empty());
        r
    }
}

impl Values {
    /// The `(dest, value)` pairs, in the order they were first set.
    pub closed spec fn entries(&self) -> Seq<(Seq<char>, ValueView)> {
        entry_views(self.0@)
    }

    /// The value of `dest` (`Value::Unset` if unknown).
    pub fn get(&self, dest: &str) -> (r: &Value)
        ensures
            value_view(*r) == lookup_value(self.entries(), dest@),
    {
        let ghost m = self.entries();
        let mut i: usize = 0;
        assert(m.skip(0) =~= m);
        while i < self.0.len()
            invariant
                0 <= i <= self.0@.len(),
                m == self.entries(),
                lookup_value(m, dest@) == lookup_value(m.skip(i as int), dest@),
            decreases self.0@.len() - i,
        {
            assert(m.skip(i as int)[0] == (self.0@[i as int].0@, value_view(self.0@[i as int].1)));
            assert(m.skip(i as int).drop_first() =~= m.skip(i + 1));
            if str_eq(self.0[i].0, dest) {
                return &self.0[i].1;
            }
            i = i + 1;
        }
        &Value::Unset
    }

    /// The string value of `dest`, if it is one.
    pub fn str(&self, dest: &str) -> (r: Option<&PyStr>)
        ensures
            match lookup_value(self.entries(), dest@) {
                ValueView::Str(s) => r matches Some(p) && p@ == s,
                _ => r is None,
            },
    {
        match self.get(dest) {
            Value::Str(s) => Some(s),
            _ => None,
        }
    }

    /// The flag value of `dest` (`false` if it is not a flag).
    pub fn flag(&self, dest: &str) -> (r: bool)
        ensures
            r == (lookup_value(self.entries(), dest@) == ValueView::Bool(true)),
    {
        match self.get(dest) {
            Value::Bool(b) => *b,
            _ => false,
        }
    }

    /// Sets the value of `dest`.
    fn set(&mut self, dest: &'static str, value: Value)
        ensures
            final(self).entries() == set_value(old(self).entries(), dest@, value_view(value)),
    {
        let ghost m = self.entries();
        let ghost vv = value_view(value);
        let mut i: usize = 0;
        assert(m.skip(0) =~= m);
        assert(m.take(0) + set_value(m.skip(0), dest@, vv) =~= set_value(m, dest@, vv));
        while i < self.0.len()
            invariant
                0 <= i <= self.0@.len(),
                m == old(self).entries(),
                self.0@ == old(self).0@,
                vv == value_view(value),
                set_value(m, dest@, vv) == m.take(i as int) + set_value(m.skip(i as int), dest@, vv),
            decreases self.0@.len() - i,
        {
            let ghost rest = m.skip(i as int);
            assert(rest[0] == (self.0@[i as int].0@, value_view(self.0@[i as int].1)));
            if str_eq(self.0[i].0, dest) {
                self.0.set(i, (dest, value));
                assert(rest.drop_first() =~= m.skip(i + 1));
                assert(self.entries() =~= m.take(i as int) + set_value(rest, dest@, vv));
                return;
            }
            assert(rest.drop_first() =~= m.skip(i + 1));
            assert(m.take(i + 1) =~= m.take(i as int) + seq![rest[0]]);
            i = i + 1;
        }
        self.0.push((dest, value));
        assert(m.skip(i as int) =~= Seq::<(Seq<char>, ValueView)>::empty());
        assert(m.take(i as int) =~= m);
        assert(self.entries() =~= m + seq![(dest@, vv)]);
    }
}

// ---------------------------------------------------------------------
// The parser and its option strings.

/// The outcome of [`ArgumentParser::parse_args`].
#[derive(Clone, PartialEq, Eq, Debug)]
pub enum Outcome {
    /// Arguments parsed; run the tool.
    Run(Values),
    /// `-h`/`--help`: print [`ArgumentParser::format_help`] to stdout and
    /// exit with 0.
    Help,
    /// A usage error: print [`ArgumentParser::format_error`] of the
    /// message to stderr and exit with 2.
    Error(PyStr),
}

/// An `argparse.ArgumentParser`.
#[derive(Clone, PartialEq, Eq, Debug)]
pub struct ArgumentParser {
    /// The program name (`prog`).
    pub prog: String,
    /// The description shown between the usage and the arguments.
    pub description: Option<&'static str>,
    /// The arguments in `add_argument` order, the help argument first
    /// (`parser._actions`).
    pub arguments: Vec<Argument>,
}

proof fn lemma_index_of_code(s: Seq<u32>, c: u32)
    ensures
        match crate::pystr::index_of_code(s, c) {
            Some(i) => 0 <= i < s.len() && s[i] == c,
            None => true,
        },
    decreases s.len(),
{
    if s.len() > 0 && s[0] != c {
        lemma_index_of_code(s.drop_first(), c);
    }
}

/// The text before the first `=` of a text that starts with `-` is not
/// empty.
proof fn lemma_partition_prefix(s: Seq<u32>)
    requires
        s.len() >= 1,
        s[0] == DASH,
    ensures
        spec_partition_eq(s).0.len() >= 1,
{
    lemma_index_of_code(s, 61);
}

/// `-` as a code point.
pub const DASH: u32 = 45;

/// Why parsing stopped early.
enum Stop {
    /// The help action ran.
    Help,
    /// `parser.error(message)`.
    Error(PyStr),
}

/// Why parsing stopped early, over plain values.
pub enum StopView {
    /// The help action ran.
    Help,
    /// `parser.error(message)`.
    Error(Seq<u32>),
}

spec fn stop_view(s: Stop) -> StopView {
    match s {
        Stop::Help => StopView::Help,
        Stop::Error(m) => StopView::Error(m@),
    }
}

/// An option tuple: `(action, option_string, sep, explicit_arg)`; only
/// whether `sep` is empty matters. `action` indexes the parser's
/// arguments.
struct OptionTuple {
    action: Option<usize>,
    option_string: PyStr,
    sep: bool,
    explicit_arg: Option<PyStr>,
}

/// An option tuple over plain values.
pub struct Tup {
    pub action: Option<int>,
    pub option_string: Seq<u32>,
    pub sep: bool,
    pub explicit_arg: Option<Seq<u32>>,
}

spec fn tup_view(t: OptionTuple) -> Tup {
    Tup {
        action: match t.action {
            Some(a) => Some(a as int),
            None => None,
        },
        option_string: t.option_string@,
        sep: t.sep,
        explicit_arg: opt_seq(t.explicit_arg),
    }
}

spec fn tup_views(v: Seq<OptionTuple>) -> Seq<Tup> {
    v.map_values(|t: OptionTuple| tup_view(t))
}

/// The option strings of argument `i`, each with `i`.
pub open spec fn arg_pairs(a: Argument, i: int) -> Seq<(&'static str, int)> {
    a.option_strings@.map_values(|o: &'static str| (o, i))
}

/// `parser._option_string_actions` from argument `i` on, in insertion
/// order: every option string with the index of its argument.
pub open spec fn option_pairs_from(args: Seq<Argument>, i: nat) -> Seq<(&'static str, int)>
    decreases args.len() - i,
{
    if i >= args.len() {
        seq![]
    } else {
        arg_pairs(args[i as int], i as int) + option_pairs_from(args, i + 1)
    }
}

/// `parser._option_string_actions`, in insertion order.
pub open spec fn option_pairs(args: Seq<Argument>) -> Seq<(&'static str, int)> {
    option_pairs_from(args, 0)
}

/// Pairs with `usize` indices as pairs with `int` indices.
pub open spec fn index_pairs(v: Seq<(&'static str, usize)>) -> Seq<(&'static str, int)> {
    v.map_values(|p: (&'static str, usize)| (p.0, p.1 as int))
}

/// The argument of the first option string equal to `s`.
pub open spec fn lookup_in(pairs: Seq<(&'static str, int)>, s: Seq<u32>) -> Option<int>
    decreases pairs.len(),
{
    if pairs.len() == 0 {
        None
    } else if code_points(pairs[0].0@) == s {
        Some(pairs[0].1)
    } else {
        lookup_in(pairs.drop_first(), s)
    }
}

/// `_get_option_tuples()` for `--prefix[=explicit]`: every option string
/// that starts with `prefix`.
pub open spec fn long_tuples(
    pairs: Seq<(&'static str, int)>,
    prefix: Seq<u32>,
    explicit: Option<Seq<u32>>,
) -> Seq<Tup>
    decreases pairs.len(),
{
    if pairs.len() == 0 {
        seq![]
    } else {
        let rest = long_tuples(pairs.drop_first(), prefix, explicit);
        let name = code_points(pairs[0].0@);
        if prefix.is_prefix_of(name) {
            seq![
                Tup {
                    action: Some(pairs[0].1),
                    option_string: name,
                    sep: explicit is Some,
                    explicit_arg: explicit,
                },
            ] + rest
        } else {
            rest
        }
    }
}

/// `_get_option_tuples()` for `-xyz`: an option string equal to `-x`
/// (with `yz` as its explicit argument), or one that starts with `-xyz`.
pub open spec fn short_tuples(pairs: Seq<(&'static str, int)>, arg: Seq<u32>) -> Seq<Tup>
    decreases pairs.len(),
{
    if pairs.len() == 0 {
        seq![]
    } else {
        let rest = short_tuples(pairs.drop_first(), arg);
        let name = code_points(pairs[0].0@);
        if arg.take(2) == name {
            seq![
                Tup {
                    action: Some(pairs[0].1),
                    option_string: name,
                    sep: false,
                    explicit_arg: Some(arg.skip(2)),
                },
            ] + rest
        } else if arg.is_prefix_of(name) {
            seq![Tup { action: Some(pairs[0].1), option_string: name, sep: false, explicit_arg: None }]
                + rest
        } else {
            rest
        }
    }
}

/// `_get_option_tuples()` of `arg` (which starts with `-` and has at least
/// two characters).
pub open spec fn option_tuples(args: Seq<Argument>, arg: Seq<u32>) -> Seq<Tup> {
    if arg[1] == DASH {
        long_tuples(option_pairs(args), spec_partition_eq(arg).0, spec_partition_eq(arg).1)
    } else {
        short_tuples(option_pairs(args), arg)
    }
}

/// The option strings of `tuples` joined by `, `.
pub open spec fn tuple_names(tuples: Seq<Tup>) -> Seq<u32> {
    join(tuples.map_values(|t: Tup| t.option_string), seq![44u32, 32u32])
}

/// Every code point of `s` is a decimal digit (`\d`).
pub open spec fn all_decimal(s: Seq<u32>) -> bool {
    forall|i: int| 0 <= i < s.len() ==> #[trigger] spec_decimal_value(s[i]) is Some
}

/// `_negative_number_matcher.match(s)`: `^-\d+$|^-\d*\.\d+$`, where `$`
/// also matches before a final newline.
pub open spec fn negative_number_like(s: Seq<u32>) -> bool {
    let chars = if s.len() > 0 && s.last() == 10 {
        s.drop_last()
    } else {
        s
    };
    if chars.len() == 0 || chars[0] != DASH {
        false
    } else {
        let rest = chars.drop_first();
        (rest.len() > 0 && all_decimal(rest)) || match crate::pystr::index_of_code(rest, 46) {
            Some(dot) => all_decimal(rest.take(dot)) && rest.skip(dot + 1).len() > 0
                && all_decimal(rest.skip(dot + 1)),
            None => false,
        }
    }
}

/// `ArgumentError(action, message)` as `parser.error(str(err))`.
pub open spec fn argument_error(args: Seq<Argument>, action: int, message: Seq<u32>) -> StopView {
    StopView::Error(
        code_points("argument "@) + code_points(action_name(args[action])) + code_points(": "@)
            + message,
    )
}

/// The error of an explicit argument that the action does not take.
pub open spec fn ignored_explicit(args: Seq<Argument>, action: int, explicit: Seq<u32>) -> StopView {
    argument_error(args, action, code_points("ignored explicit argument "@) + repr(explicit))
}

/// `_parse_optional()`: `None` for a positional argument string, else its
/// option tuple.
pub open spec fn spec_parse_optional(args: Seq<Argument>, arg: Seq<u32>) -> Result<
    Option<Tup>,
    StopView,
> {
    let pairs = option_pairs(args);
    if arg.len() == 0 || arg[0] != DASH {
        Ok(None)
    } else if lookup_in(pairs, arg) is Some {
        Ok(Some(Tup { action: lookup_in(pairs, arg), option_string: arg, sep: false, explicit_arg: None }))
    } else if arg.len() == 1 {
        Ok(None)
    } else if spec_partition_eq(arg).1 is Some && lookup_in(pairs, spec_partition_eq(arg).0) is Some {
        Ok(
            Some(
                Tup {
                    action: lookup_in(pairs, spec_partition_eq(arg).0),
                    option_string: spec_partition_eq(arg).0,
                    sep: true,
                    explicit_arg: spec_partition_eq(arg).1,
                },
            ),
        )
    } else {
        let tuples = option_tuples(args, arg);
        if tuples.len() > 1 {
            Err(
                StopView::Error(
                    code_points("ambiguous option: "@) + arg + code_points(" could match "@)
                        + tuple_names(tuples),
                ),
            )
        } else if tuples.len() == 1 {
            Ok(Some(tuples[0]))
        } else if negative_number_like(arg) || arg.contains(32u32) {
            Ok(None)
        } else {
            Ok(Some(Tup { action: None, option_string: arg, sep: false, explicit_arg: None }))
        }
    }
}

/// `_match_argument()` for an option: the number of argument strings it
/// takes from the argument classes `pattern`.
pub open spec fn spec_match_argument(args: Seq<Argument>, action: int, pattern: Seq<u8>) -> Result<
    int,
    StopView,
> {
    let first_is_a = pattern.len() > 0 && pattern[0] == 65;
    match args[action].nargs {
        Nargs::Zero => Ok(0),
        Nargs::Optional => Ok(if first_is_a { 1int } else { 0int }),
        Nargs::One => if first_is_a {
            Ok(1)
        } else {
            Err(argument_error(args, action, code_points("expected one argument"@)))
        },
    }
}


/// Copies of `v`, appended to `out`.
fn push_codes(out: &mut Vec<u32>, v: &Vec<u32>)
    ensures
        final(out)@ == old(out)@ + v@,
{
    push_all(out, v);
}

/// The code points of `s`, appended to `out`.
fn push_str_codes(out: &mut Vec<u32>, s: &str)
    ensures
        final(out)@ == old(out)@ + code_points(s@),
{
    let p = PyStr::from_str(s);
    push_all(out, &p.0);
}

/// The first `n` code points of `v`.
fn prefix_codes(v: &Vec<u32>, n: usize) -> (r: Vec<u32>)
    requires
        n <= v@.len(),
    ensures
        r@ == v@.take(n as int),
{
    let mut out: Vec<u32> = Vec::new();
    let mut i: usize = 0;
    while i < n
        invariant
            0 <= i <= n <= v@.len(),
            out@ == v@.take(i as int),
        decreases n - i,
    {
        out.push(v[i]);
        assert(v@.take(i + 1) =~= v@.take(i as int).push(v@[i as int]));
        i = i + 1;
    }
    out
}

/// A copy of an optional `PyStr`.
fn copy_opt(o: &Option<PyStr>) -> (r: Option<PyStr>)
    ensures
        opt_seq(r) == opt_seq(*o),
{
    match o {
        Some(p) => Some(p.copy()),
        None => None,
    }
}

/// `\d`.
fn is_decimal(c: u32) -> (r: bool)
    ensures
        r == (spec_decimal_value(c) is Some),
{
    decimal_value(c).is_some()
}

/// Every code point of `s[from..to]` is a decimal digit.
fn all_decimal_in(s: &Vec<u32>, from: usize, to: usize) -> (r: bool)
    requires
        from <= to <= s@.len(),
    ensures
        r == all_decimal(s@.subrange(from as int, to as int)),
{
    let mut i = from;
    while i < to
        invariant
            from <= i <= to <= s@.len(),
            all_decimal(s@.subrange(from as int, i as int)),
        decreases to - i,
    {
        if !is_decimal(s[i]) {
            assert(s@.subrange(from as int, to as int)[i - from] == s@[i as int]);
            return false;
        }
        assert forall|j: int| 0 <= j < i + 1 - from implies #[trigger] spec_decimal_value(
            s@.subrange(from as int, i + 1)[j],
        ) is Some by {
            if j < i - from {
                assert(s@.subrange(from as int, i + 1)[j] == s@.subrange(from as int, i as int)[j]);
            }
        }
        i = i + 1;
    }
    true
}

/// `_negative_number_matcher.match(s)`: `^-\d+$|^-\d*\.\d+$` (`$` also
/// matches before a trailing newline, `\d` is any Unicode decimal digit).
pub fn looks_like_negative_number(s: &PyStr) -> (r: bool)
    ensures
        r == negative_number_like(s@),
{
    let v = &s.0;
    let mut end = v.len();
    if end > 0 && v[end - 1] == 10 {
        end = end - 1;
    }
    let ghost chars = if s@.len() > 0 && s@.last() == 10 {
        s@.drop_last()
    } else {
        s@
    };
    assert(chars =~= s@.take(end as int));
    if end == 0 || v[0] != DASH {
        return false;
    }
    let ghost rest = chars.drop_first();
    assert(rest =~= s@.subrange(1, end as int));
    if end > 1 && all_decimal_in(v, 1, end) {
        return true;
    }
    let mut dot: usize = 1;
    assert(rest.skip(0) =~= rest);
    while dot < end && v[dot] != 46
        invariant
            1 <= dot <= end <= s@.len(),
            v@ == s@,
            rest =~= s@.subrange(1, end as int),
            crate::pystr::index_of_code(rest, 46) == (match crate::pystr::index_of_code(
                rest.skip(dot - 1),
                46,
            ) {
                Some(k) => Some(k + dot - 1),
                None => None,
            }),
        decreases end - dot,
    {
        assert(rest.skip(dot - 1)[0] == s@[dot as int]);
        assert(rest.skip(dot - 1).drop_first() =~= rest.skip(dot as int));
        dot = dot + 1;
    }
    if dot == end {
        assert(rest.skip(dot - 1) =~= Seq::<u32>::empty());
        return false;
    }
    assert(rest.skip(dot - 1)[0] == s@[dot as int]);
    let ghost d = dot - 1;
    assert(rest.take(d) =~= s@.subrange(1, dot as int));
    assert(rest.skip(d + 1) =~= s@.subrange(dot + 1, end as int));
    all_decimal_in(v, 1, dot) && dot + 1 < end && all_decimal_in(v, dot + 1, end)
}

impl ArgumentParser {
    /// `parser._option_string_actions`, in insertion order: every option
    /// string with the index of its argument.
    fn option_strings(&self) -> (r: Vec<(&'static str, usize)>)
        ensures
            index_pairs(r@) == option_pairs(self.arguments@),
            forall|k: int| 0 <= k < r@.len() ==> #[trigger] r@[k].1 < self.arguments@.len(),
    {
        let ghost args = self.arguments@;
        let mut out: Vec<(&'static str, usize)> = Vec::new();
        let mut i: usize = 0;
        assert(index_pairs(out@) + option_pairs_from(args, 0) =~= option_pairs(args));
        while i < self.arguments.len()
            invariant
                0 <= i <= args.len(),
                args == self.arguments@,
                option_pairs(args) == index_pairs(out@) + option_pairs_from(args, i as nat),
                forall|k: int| 0 <= k < out@.len() ==> #[trigger] out@[k].1 < args.len(),
            decreases args.len() - i,
        {
            let a = &self.arguments[i];
            let ghost base = out@;
            let mut j: usize = 0;
            while j < a.option_strings.len()
                invariant
                    0 <= j <= a.option_strings@.len(),
                    i < args.len(),
                    *a == args[i as int],
                    index_pairs(out@) == index_pairs(base) + arg_pairs(*a, i as int).take(j as int),
                    forall|k: int| 0 <= k < out@.len() ==> #[trigger] out@[k].1 < args.len(),
                decreases a.option_strings@.len() - j,
            {
                let ghost before = out@;
                out.push((a.option_strings[j], i));
                assert(index_pairs(out@) =~= index_pairs(before).push((a.option_strings@[j as int], i as int)));
                assert(arg_pairs(*a, i as int).take(j + 1) =~= arg_pairs(*a, i as int).take(j as int).push(
                    (a.option_strings@[j as int], i as int),
                ));
                j = j + 1;
            }
            assert(arg_pairs(*a, i as int).take(j as int) =~= arg_pairs(*a, i as int));
            assert(index_pairs(out@) + option_pairs_from(args, (i + 1) as nat) =~= index_pairs(base)
                + option_pairs_from(args, i as nat));
            i = i + 1;
        }
        assert(index_pairs(out@) + option_pairs_from(args, i as nat) =~= index_pairs(out@));
        out
    }

    /// The argument of the option string `s`.
    fn lookup_option(&self, s: &PyStr) -> (r: Option<usize>)
        ensures
            r matches Some(a) ==> lookup_in(option_pairs(self.arguments@), s@) == Some(a as int)
                && a < self.arguments@.len(),
            r is None ==> lookup_in(option_pairs(self.arguments@), s@) is None,
    {
        let pairs = self.option_strings();
        let ghost all = index_pairs(pairs@);
        let mut k: usize = 0;
        assert(all.skip(0) =~= all);
        while k < pairs.len()
            invariant
                0 <= k <= pairs@.len(),
                all == index_pairs(pairs@),
                all == option_pairs(self.arguments@),
                forall|t: int| 0 <= t < pairs@.len() ==> #[trigger] pairs@[t].1 < self.arguments@.len(),
                lookup_in(all, s@) == lookup_in(all.skip(k as int), s@),
            decreases pairs@.len() - k,
        {
            assert(all.skip(k as int)[0] == (pairs@[k as int].0, pairs@[k as int].1 as int));
            assert(all.skip(k as int).drop_first() =~= all.skip(k + 1));
            if s.eq_str(pairs[k].0) {
                return Some(pairs[k].1);
            }
            k = k + 1;
        }
        None
    }

    /// `ArgumentError(action, message)` turned into `parser.error(str(err))`.
    fn argument_error(&self, action: usize, message: &PyStr) -> (r: Stop)
        requires
            action < self.arguments@.len(),
        ensures
            stop_view(r) == argument_error(self.arguments@, action as int, message@),
    {
        let name = self.arguments[action].name();
        let mut text: Vec<u32> = Vec::new();
        push_str_codes(&mut text, "argument ");
        let name_codes = code_points_of(&name);
        push_codes(&mut text, &name_codes);
        push_str_codes(&mut text, ": ");
        push_codes(&mut text, &message.0);
        Stop::Error(PyStr(text))
    }

    /// The error of an explicit argument the action does not take.
    fn ignored_explicit_argument(&self, action: usize, explicit_arg: &PyStr) -> (r: Stop)
        requires
            action < self.arguments@.len(),
        ensures
            stop_view(r) == ignored_explicit(self.arguments@, action as int, explicit_arg@),
    {
        let mut message: Vec<u32> = Vec::new();
        push_str_codes(&mut message, "ignored explicit argument ");
        let r = explicit_arg.repr();
        push_codes(&mut message, &r.0);
        self.argument_error(action, &PyStr(message))
    }

    /// `_get_option_tuples()`; `arg` starts with `-` and has at least two
    /// characters.
    fn get_option_tuples(&self, arg: &PyStr) -> (r: Vec<OptionTuple>)
        requires
            arg@.len() >= 2,
            arg@[0] == DASH,
        ensures
            tup_views(r@) == option_tuples(self.arguments@, arg@),
            forall|k: int| 0 <= k < r@.len() ==> (#[trigger] r@[k].action matches Some(a) && a
                < self.arguments@.len()),
            forall|k: int| 0 <= k < r@.len() ==> #[trigger] r@[k].option_string@.len() >= 1,
    {
        let pairs = self.option_strings();
        let ghost all = index_pairs(pairs@);
        let mut result: Vec<OptionTuple> = Vec::new();
        let mut k: usize = 0;
        assert(all.skip(0) =~= all);
        if arg.at(1) == Some(DASH) {
            let (prefix, explicit_arg) = arg.partition_eq();
            proof {
                lemma_partition_prefix(arg@);
            }
            let ghost goal = long_tuples(all, prefix@, opt_seq(explicit_arg));
            assert(tup_views(result@) + long_tuples(all.skip(0), prefix@, opt_seq(explicit_arg))
                =~= goal);
            while k < pairs.len()
                invariant
                    0 <= k <= pairs@.len(),
                    all == index_pairs(pairs@),
                    forall|t: int| 0 <= t < pairs@.len() ==> #[trigger] pairs@[t].1 < self.arguments@.len(),
                    forall|t: int| 0 <= t < result@.len() ==> (#[trigger] result@[t].action matches Some(a)
                        && a < self.arguments@.len()),
                    forall|t: int| 0 <= t < result@.len() ==> #[trigger] result@[t].option_string@.len() >= 1,
                    prefix@.len() >= 1,
                    goal == tup_views(result@) + long_tuples(all.skip(k as int), prefix@, opt_seq(explicit_arg)),
                decreases pairs@.len() - k,
            {
                let ghost rest = all.skip(k as int);
                assert(rest[0] == (pairs@[k as int].0, pairs@[k as int].1 as int));
                assert(rest.drop_first() =~= all.skip(k + 1));
                let (name, action) = pairs[k];
                let ghost before = result@;
                if prefix.is_prefix_of(name) {
                    result.push(
                        OptionTuple {
                            action: Some(action),
                            option_string: PyStr::from_str(name),
                            sep: explicit_arg.is_some(),
                            explicit_arg: copy_opt(&explicit_arg),
                        },
                    );
                }
                assert(tup_views(result@) + long_tuples(all.skip(k + 1), prefix@, opt_seq(explicit_arg))
                    =~= tup_views(before) + long_tuples(rest, prefix@, opt_seq(explicit_arg)));
                k = k + 1;
            }
            assert(all.skip(k as int) =~= Seq::<(&'static str, int)>::empty());
            assert(tup_views(result@) + Seq::<Tup>::empty() =~= tup_views(result@));
        } else {
            let short_prefix = PyStr(prefix_codes(&arg.0, 2));
            let short_explicit_arg = arg.slice_from(2);
            let ghost goal = short_tuples(all, arg@);
            assert(tup_views(result@) + short_tuples(all.skip(0), arg@) =~= goal);
            while k < pairs.len()
                invariant
                    0 <= k <= pairs@.len(),
                    all == index_pairs(pairs@),
                    arg@.len() >= 2,
                    short_prefix@ == arg@.take(2),
                    short_explicit_arg@ == arg@.skip(2),
                    forall|t: int| 0 <= t < pairs@.len() ==> #[trigger] pairs@[t].1 < self.arguments@.len(),
                    forall|t: int| 0 <= t < result@.len() ==> (#[trigger] result@[t].action matches Some(a)
                        && a < self.arguments@.len()),
                    forall|t: int| 0 <= t < result@.len() ==> #[trigger] result@[t].option_string@.len() >= 1,
                    goal == tup_views(result@) + short_tuples(all.skip(k as int), arg@),
                decreases pairs@.len() - k,
            {
                let ghost rest = all.skip(k as int);
                assert(rest[0] == (pairs@[k as int].0, pairs@[k as int].1 as int));
                assert(rest.drop_first() =~= all.skip(k + 1));
                let (name, action) = pairs[k];
                let ghost before = result@;
                if short_prefix.eq_str(name) {
                    result.push(
                        OptionTuple {
                            action: Some(action),
                            option_string: PyStr::from_str(name),
                            sep: false,
                            explicit_arg: Some(short_explicit_arg.copy()),
                        },
                    );
                } else if arg.is_prefix_of(name) {
                    result.push(
                        OptionTuple {
                            action: Some(action),
                            option_string: PyStr::from_str(name),
                            sep: false,
                            explicit_arg: None,
                        },
                    );
                }
                assert(tup_views(result@) + short_tuples(all.skip(k + 1), arg@) =~= tup_views(before)
                    + short_tuples(rest, arg@));
                k = k + 1;
            }
            assert(all.skip(k as int) =~= Seq::<(&'static str, int)>::empty());
            assert(tup_views(result@) + Seq::<Tup>::empty() =~= tup_views(result@));
        }
        result
    }
}


impl ArgumentParser {
    /// `_parse_optional()`: `None` for a positional argument string.
    fn parse_optional(&self, arg: &PyStr) -> (r: Result<Option<OptionTuple>, Stop>)
        ensures
            match r {
                Ok(Some(t)) => spec_parse_optional(self.arguments@, arg@) == Ok::<
                    Option<Tup>,
                    StopView,
                >(Some(tup_view(t))) && (t.action matches Some(a) ==> a < self.arguments@.len())
                    && t.option_string@.len() >= 1,
                Ok(None) => spec_parse_optional(self.arguments@, arg@) == Ok::<
                    Option<Tup>,
                    StopView,
                >(None),
                Err(e) => spec_parse_optional(self.arguments@, arg@) == Err::<Option<Tup>, StopView>(
                    stop_view(e),
                ),
            },
    {
        if arg.at(0) != Some(DASH) {
            return Ok(None);
        }
        if let Some(action) = self.lookup_option(arg) {
            return Ok(
                Some(
                    OptionTuple {
                        action: Some(action),
                        option_string: arg.copy(),
                        sep: false,
                        explicit_arg: None,
                    },
                ),
            );
        }
        if arg.len() == 1 {
            return Ok(None);
        }
        let (option_string, explicit) = arg.partition_eq();
        proof {
            lemma_partition_prefix(arg@);
        }
        if let Some(explicit_arg) = explicit {
            if let Some(action) = self.lookup_option(&option_string) {
                return Ok(
                    Some(
                        OptionTuple {
                            action: Some(action),
                            option_string,
                            sep: true,
                            explicit_arg: Some(explicit_arg),
                        },
                    ),
                );
            }
        }
        let mut tuples = self.get_option_tuples(arg);
        let ghost tv = tup_views(tuples@);
        if tuples.len() > 1 {
            let mut message: Vec<u32> = Vec::new();
            push_str_codes(&mut message, "ambiguous option: ");
            push_codes(&mut message, &arg.0);
            push_str_codes(&mut message, " could match ");
            let ghost head = message@;
            let ghost names = tv.map_values(|t: Tup| t.option_string);
            push_codes(&mut message, &tuples[0].option_string.0);
            let mut k: usize = 1;
            proof {
                lemma_join_rest(names, seq![44u32, 32u32]);
                assert(names.skip(1) =~= names.drop_first());
                assert(names[0] == tuples@[0].option_string@);
            }
            while k < tuples.len()
                invariant
                    1 <= k <= tuples@.len(),
                    tv == tup_views(tuples@),
                    names == tv.map_values(|t: Tup| t.option_string),
                    head + join(names, seq![44u32, 32u32]) == message@ + join_rest(
                        names.skip(k as int),
                        seq![44u32, 32u32],
                    ),
                decreases tuples@.len() - k,
            {
                proof {
                    lemma_join_split(names, seq![44u32, 32u32], k as int);
                }
                assert(names[k as int] == tuples@[k as int].option_string@);
                let ghost before = message@;
                message.push(44u32);
                message.push(32u32);
                push_codes(&mut message, &tuples[k].option_string.0);
                assert(before + (seq![44u32, 32u32] + names[k as int] + join_rest(
                    names.skip(k + 1),
                    seq![44u32, 32u32],
                )) =~= message@ + join_rest(names.skip(k + 1), seq![44u32, 32u32]));
                k = k + 1;
            }
            assert(names.skip(k as int) =~= Seq::<Seq<u32>>::empty());
            assert(message@ + Seq::<u32>::empty() =~= message@);
            return Err(Stop::Error(PyStr(message)));
        }
        if tuples.len() == 1 {
            let t = tuples.pop().unwrap();
            assert(tup_view(t) == tv[0]);
            return Ok(Some(t));
        }
        if looks_like_negative_number(arg) || arg.contains(' ') {
            return Ok(None);
        }
        Ok(Some(OptionTuple { action: None, option_string: arg.copy(), sep: false, explicit_arg: None }))
    }

    /// `_match_argument()` for an option: the number of argument strings
    /// it consumes from the argument class pattern `pattern`.
    fn match_argument(&self, action: usize, pattern: &[u8]) -> (r: Result<usize, Stop>)
        requires
            action < self.arguments@.len(),
        ensures
            match r {
                Ok(n) => spec_match_argument(self.arguments@, action as int, pattern@) == Ok::<
                    int,
                    StopView,
                >(n as int) && n <= 1 && (n == 1 ==> pattern@.len() >= 1),
                Err(e) => spec_match_argument(self.arguments@, action as int, pattern@) == Err::<
                    int,
                    StopView,
                >(stop_view(e)),
            },
    {
        let first_is_a = pattern.len() > 0 && pattern[0] == 65;
        match self.arguments[action].nargs {
            Nargs::Zero => Ok(0),
            Nargs::Optional => Ok(
                if first_is_a {
                    1
                } else {
                    0
                },
            ),
            Nargs::One => {
                if first_is_a {
                    Ok(1)
                } else {
                    let m = PyStr::from_str("expected one argument");
                    Err(self.argument_error(action, &m))
                }
            },
        }
    }
}

// ---------------------------------------------------------------------
// `_match_arguments_partial()`.

/// The number of `-` of `p` from `from` on.
pub open spec fn spec_dashes(p: Seq<u8>, from: int) -> int
    decreases p.len() - from,
{
    if 0 <= from < p.len() && p[from] == 45 {
        1 + spec_dashes(p, from + 1)
    } else {
        0
    }
}

/// `p[at]` is `A`.
pub open spec fn a_at(p: Seq<u8>, at: int) -> bool {
    0 <= at < p.len() && p[at] == 65
}

/// The lengths of the middle of a group's pattern (`A` or `A?`) at `at`,
/// in the order Python's regular expressions try them.
pub open spec fn middles(g: Nargs, p: Seq<u8>, at: int) -> Seq<int> {
    match g {
        Nargs::One => if a_at(p, at) {
            seq![1int]
        } else {
            seq![]
        },
        Nargs::Optional => if a_at(p, at) {
            seq![1int, 0int]
        } else {
            seq![0int]
        },
        Nargs::Zero => seq![0int],
    }
}

/// `re.match` of the patterns of groups `g[gi..]` (`(-*A-*)` for
/// `nargs=None`, `(-*A?-*)` for `nargs='?'`) at `pos` of `p`, trying
/// matches in the order of Python's backtracking (greedy `-*` and `A?`
/// first): the length of every group.
pub open spec fn spec_match_groups(g: Seq<Nargs>, gi: int, p: Seq<u8>, pos: int) -> Option<Seq<int>>
    decreases g.len() - gi, 3int, 0int,
{
    if gi < 0 || gi >= g.len() {
        Some(seq![])
    } else {
        try_lead(g, gi, p, pos, spec_dashes(p, pos))
    }
}

/// The match of group `gi` with `lead` leading dashes or fewer.
pub open spec fn try_lead(g: Seq<Nargs>, gi: int, p: Seq<u8>, pos: int, lead: int) -> Option<Seq<int>>
    decreases g.len() - gi, 2int, lead + 1,
{
    if lead < 0 || gi < 0 || gi >= g.len() {
        None
    } else {
        match try_middle(g, gi, p, pos, lead, 0) {
            Some(c) => Some(c),
            None => try_lead(g, gi, p, pos, lead - 1),
        }
    }
}

/// The match of group `gi` with `lead` leading dashes and the middle
/// lengths from the `mi`-th on.
pub open spec fn try_middle(g: Seq<Nargs>, gi: int, p: Seq<u8>, pos: int, lead: int, mi: int) -> Option<
    Seq<int>,
>
    decreases g.len() - gi, 1int, 3 - mi,
{
    let ms = middles(g[gi], p, pos + lead);
    if mi < 0 || mi >= ms.len() || gi < 0 || gi >= g.len() {
        None
    } else {
        let ts = pos + lead + ms[mi];
        match try_trail(g, gi, p, pos, ts, spec_dashes(p, ts)) {
            Some(c) => Some(c),
            None => try_middle(g, gi, p, pos, lead, mi + 1),
        }
    }
}

/// The match of group `gi` whose trailing dashes start at `ts`, with
/// `trail` of them or fewer.
pub open spec fn try_trail(g: Seq<Nargs>, gi: int, p: Seq<u8>, pos: int, ts: int, trail: int) -> Option<
    Seq<int>,
>
    decreases g.len() - gi, 0int, trail + 1,
{
    if trail < 0 || gi < 0 || gi >= g.len() {
        None
    } else {
        let end = ts + trail;
        match spec_match_groups(g, gi + 1, p, end) {
            Some(rest) => Some(seq![end - pos] + rest),
            None => try_trail(g, gi, p, pos, ts, trail - 1),
        }
    }
}

/// The sum of `c`.
pub open spec fn total(c: Seq<int>) -> int
    decreases c.len(),
{
    if c.len() == 0 {
        0
    } else {
        c[0] + total(c.drop_first())
    }
}

/// `usize` values as integers.
pub open spec fn ints(v: Seq<usize>) -> Seq<int> {
    v.map_values(|x: usize| x as int)
}

/// The counts of the first `i` positionals or fewer, as many as match the
/// start of `pattern`.
pub open spec fn partial_from(args: Seq<Argument>, positionals: Seq<int>, pattern: Seq<u8>, i: int) -> Seq<
    int,
>
    decreases i,
{
    if i <= 0 {
        seq![]
    } else {
        let groups = positionals.take(i).map_values(|q: int| args[q].nargs);
        match spec_match_groups(groups, 0, pattern, 0) {
            Some(c) => c,
            None => partial_from(args, positionals, pattern, i - 1),
        }
    }
}

/// `_match_arguments_partial()`: the argument counts of as many of the
/// `positionals` as match the start of `pattern`.
pub open spec fn spec_match_partial(args: Seq<Argument>, positionals: Seq<int>, pattern: Seq<u8>) -> Seq<
    int,
> {
    partial_from(args, positionals, pattern, positionals.len() as int)
}

/// The number of `-` of `p` from `from` on.
fn dashes(p: &[u8], from: usize) -> (r: usize)
    requires
        from <= p@.len(),
    ensures
        r == spec_dashes(p@, from as int),
        from + r <= p@.len(),
{
    let mut k = from;
    while k < p.len() && p[k] == 45
        invariant
            from <= k <= p@.len(),
            spec_dashes(p@, from as int) == (k - from) + spec_dashes(p@, k as int),
        decreases p@.len() - k,
    {
        k = k + 1;
    }
    (k - from) as usize
}

/// [`try_lead`] and what follows.
fn match_groups(g: &Vec<Nargs>, gi: usize, p: &[u8], pos: usize) -> (r: Option<Vec<usize>>)
    requires
        gi <= g@.len(),
        pos <= p@.len(),
    ensures
        r matches Some(c) ==> spec_match_groups(g@, gi as int, p@, pos as int) == Some(ints(c@))
            && pos + total(ints(c@)) <= p@.len() && c@.len() == g@.len() - gi,
        r is None ==> spec_match_groups(g@, gi as int, p@, pos as int) is None,
    decreases g@.len() - gi, 3int, 0int,
{
    if gi >= g.len() {
        let c: Vec<usize> = Vec::new();
        assert(ints(c@) =~= Seq::<int>::empty());
        return Some(c);
    }
    let d = dashes(p, pos);
    match_lead(g, gi, p, pos, d)
}

fn match_lead(g: &Vec<Nargs>, gi: usize, p: &[u8], pos: usize, lead: usize) -> (r: Option<Vec<usize>>)
    requires
        gi < g@.len(),
        pos + lead <= p@.len(),
    ensures
        r matches Some(c) ==> try_lead(g@, gi as int, p@, pos as int, lead as int) == Some(ints(c@))
            && pos + total(ints(c@)) <= p@.len() && c@.len() == g@.len() - gi,
        r is None ==> try_lead(g@, gi as int, p@, pos as int, lead as int) is None,
    decreases g@.len() - gi, 2int, lead + 1,
{
    match match_middle(g, gi, p, pos, lead, 0) {
        Some(c) => Some(c),
        None => {
            if lead == 0 {
                assert(try_lead(g@, gi as int, p@, pos as int, -1) is None);
                None
            } else {
                match_lead(g, gi, p, pos, lead - 1)
            }
        },
    }
}

fn match_middle(g: &Vec<Nargs>, gi: usize, p: &[u8], pos: usize, lead: usize, mi: usize) -> (r:
    Option<Vec<usize>>)
    requires
        gi < g@.len(),
        pos + lead <= p@.len(),
        mi <= 2,
    ensures
        r matches Some(c) ==> try_middle(g@, gi as int, p@, pos as int, lead as int, mi as int)
            == Some(ints(c@)) && pos + total(ints(c@)) <= p@.len() && c@.len() == g@.len() - gi,
        r is None ==> try_middle(g@, gi as int, p@, pos as int, lead as int, mi as int) is None,
    decreases g@.len() - gi, 1int, 3 - mi,
{
    let _n = p.len();
    let at = pos + lead;
    let a = at < p.len() && p[at] == 65;
    let ghost ms = middles(g@[gi as int], p@, at as int);
    let middle: usize = match g[gi] {
        Nargs::One => {
            if a && mi == 0 {
                1
            } else {
                return None;
            }
        },
        Nargs::Optional => {
            if a && mi == 0 {
                1
            } else if (a && mi == 1) || (!a && mi == 0) {
                0
            } else {
                return None;
            }
        },
        Nargs::Zero => {
            if mi == 0 {
                0
            } else {
                return None;
            }
        },
    };
    assert(mi < ms.len() && ms[mi as int] == middle);
    let ts = at + middle;
    let t = dashes(p, ts);
    match match_trail(g, gi, p, pos, ts, t) {
        Some(c) => Some(c),
        None => match_middle(g, gi, p, pos, lead, mi + 1),
    }
}

fn match_trail(g: &Vec<Nargs>, gi: usize, p: &[u8], pos: usize, ts: usize, trail: usize) -> (r:
    Option<Vec<usize>>)
    requires
        gi < g@.len(),
        pos <= ts,
        ts + trail <= p@.len(),
    ensures
        r matches Some(c) ==> try_trail(g@, gi as int, p@, pos as int, ts as int, trail as int)
            == Some(ints(c@)) && pos + total(ints(c@)) <= p@.len() && c@.len() == g@.len() - gi,
        r is None ==> try_trail(g@, gi as int, p@, pos as int, ts as int, trail as int) is None,
    decreases g@.len() - gi, 0int, trail + 1,
{
    let _n = p.len();
    let _m = g.len();
    let end = ts + trail;
    match match_groups(g, gi + 1, p, end) {
        Some(rest) => {
            let mut c: Vec<usize> = Vec::new();
            c.push(end - pos);
            let ghost rv = ints(rest@);
            push_all(&mut c, &rest);
            assert(ints(c@) =~= seq![(end - pos) as int] + rv);
            assert(ints(c@).drop_first() =~= rv);
            Some(c)
        },
        None => {
            if trail == 0 {
                assert(try_trail(g@, gi as int, p@, pos as int, ts as int, -1) is None);
                None
            } else {
                match_trail(g, gi, p, pos, ts, trail - 1)
            }
        },
    }
}

impl ArgumentParser {
    /// `_match_arguments_partial()`: the argument counts of as many of the
    /// `positionals` as match the start of `pattern`.
    fn match_arguments_partial(&self, positionals: &Vec<usize>, pattern: &[u8]) -> (r: Vec<usize>)
        requires
            forall|k: int| 0 <= k < positionals@.len() ==> #[trigger] positionals@[k] < self.arguments@.len(),
        ensures
            ints(r@) == spec_match_partial(self.arguments@, ints(positionals@), pattern@),
            total(ints(r@)) <= pattern@.len(),
            r@.len() <= positionals@.len(),
    {
        let ghost args = self.arguments@;
        let ghost pv = ints(positionals@);
        let mut i = positionals.len();
        while i > 0
            invariant
                0 <= i <= positionals@.len(),
                pv == ints(positionals@),
                args == self.arguments@,
                forall|k: int| 0 <= k < positionals@.len() ==> #[trigger] positionals@[k] < args.len(),
                spec_match_partial(args, pv, pattern@) == partial_from(args, pv, pattern@, i as int),
            decreases i,
        {
            let mut groups: Vec<Nargs> = Vec::new();
            let mut k: usize = 0;
            while k < i
                invariant
                    0 <= k <= i <= positionals@.len(),
                    pv == ints(positionals@),
                    args == self.arguments@,
                    forall|t: int| 0 <= t < positionals@.len() ==> #[trigger] positionals@[t] < args.len(),
                    groups@ == pv.take(i as int).map_values(|q: int| args[q].nargs).take(k as int),
                decreases i - k,
            {
                let ghost before = groups@;
                groups.push(self.arguments[positionals[k]].nargs);
                assert(groups@ =~= pv.take(i as int).map_values(|q: int| args[q].nargs).take(k + 1));
                k = k + 1;
            }
            assert(groups@ =~= pv.take(i as int).map_values(|q: int| args[q].nargs));
            match match_groups(&groups, 0, pattern, 0) {
                Some(c) => {
                    return c;
                },
                None => {},
            }
            i = i - 1;
        }
        let r: Vec<usize> = Vec::new();
        assert(ints(r@) =~= Seq::<int>::empty());
        r
    }
}


// ---------------------------------------------------------------------
// `_parse_known_args()`.

/// The code points of `PyStr`s.
pub open spec fn py_views(v: Seq<PyStr>) -> Seq<Seq<u32>> {
    v.map_values(|p: PyStr| p@)
}

/// The state of `_parse_known_args()` over plain values: the argument
/// classes (`O`, `A`, `-`), the option tuples, the unrecognized
/// arguments, the positionals left, which arguments were seen, and the
/// namespace.
pub struct PState {
    pub pattern: Seq<u8>,
    pub options: Seq<Option<Tup>>,
    pub extras: Seq<Seq<u32>>,
    pub positionals: Seq<int>,
    pub seen: Seq<bool>,
    pub values: Seq<(Seq<char>, ValueView)>,
}

/// The default value of `a`.
pub open spec fn default_view(a: Argument) -> ValueView {
    match a.default {
        Some(d) => ValueView::Str(d@),
        None => ValueView::Unset,
    }
}

/// The index of the first `t` in `strings`.
pub open spec fn index_of_text(strings: Seq<Seq<u32>>, t: Seq<u32>) -> Option<int>
    decreases strings.len(),
{
    if strings.len() == 0 {
        None
    } else if strings[0] == t {
        Some(0)
    } else {
        match index_of_text(strings.drop_first(), t) {
            Some(k) => Some(k + 1),
            None => None,
        }
    }
}

/// `take_action()` with `_get_values()`: argument `action` is seen and
/// its value set from `strings` (a positional's first `--` removed).
pub open spec fn spec_take_action(args: Seq<Argument>, st: PState, action: int, strings: Seq<Seq<u32>>) -> Result<
    PState,
    StopView,
> {
    let a = args[action];
    let st1 = PState { seen: st.seen.update(action, true), ..st };
    let strings1 = if is_positional(a) {
        match index_of_text(strings, code_points("--"@)) {
            Some(i) => strings.remove(i),
            None => strings,
        }
    } else {
        strings
    };
    match a.kind {
        Kind::Help => Err(StopView::Help),
        Kind::StoreTrue => Ok(PState { values: set_value(st1.values, a.dest@, ValueView::Bool(true)), ..st1 }),
        _ => {
            let v = if strings1.len() == 0 {
                default_view(a)
            } else if a.kind == Kind::StoreNullable && strings1.last().len() == 0 {
                ValueView::Unset
            } else {
                ValueView::Str(strings1.last())
            };
            Ok(PState { values: set_value(st1.values, a.dest@, v), ..st1 })
        },
    }
}

/// The actions `tuples` taken in order.
pub open spec fn apply_actions(args: Seq<Argument>, st: PState, tuples: Seq<(int, Seq<Seq<u32>>)>) -> Result<
    PState,
    StopView,
>
    decreases tuples.len(),
{
    if tuples.len() == 0 {
        Ok(st)
    } else {
        match spec_take_action(args, st, tuples[0].0, tuples[0].1) {
            Err(e) => Err(e),
            Ok(s1) => apply_actions(args, s1, tuples.drop_first()),
        }
    }
}

/// The loop of `consume_optional()` for the option at `start`: the
/// argument string it adds to the extras (if any), where the next
/// argument starts, and the actions to take.
pub open spec fn co_loop(
    args: Seq<Argument>,
    argv: Seq<Seq<u32>>,
    pattern: Seq<u8>,
    start: int,
    action: Option<int>,
    option_string: Seq<u32>,
    sep: bool,
    explicit: Option<Seq<u32>>,
    tuples: Seq<(int, Seq<Seq<u32>>)>,
) -> Result<(Option<Seq<u32>>, int, Seq<(int, Seq<Seq<u32>>)>), StopView>
    decreases (match explicit {
        Some(e) => e.len(),
        None => 0,
    }),
{
    match action {
        None => Ok((Some(argv[start]), start + 1, seq![])),
        Some(act) => match explicit {
            Some(e) => match spec_match_argument(args, act, seq![65u8]) {
                Err(x) => Err(x),
                Ok(count) => if count == 0 && !(option_string.len() > 1 && option_string[1] == DASH)
                    && e.len() > 0 {
                    if sep || e[0] == DASH {
                        Err(ignored_explicit(args, act, e))
                    } else {
                        let tuples1 = tuples.push((act, seq![]));
                        let os = seq![option_string[0], e[0]];
                        match lookup_in(option_pairs(args), os) {
                            Some(next) => {
                                let rest = e.skip(1);
                                if rest.len() == 0 {
                                    co_loop(args, argv, pattern, start, Some(next), os, false, None, tuples1)
                                } else if rest[0] == 61 {
                                    co_loop(
                                        args,
                                        argv,
                                        pattern,
                                        start,
                                        Some(next),
                                        os,
                                        true,
                                        Some(rest.skip(1)),
                                        tuples1,
                                    )
                                } else {
                                    co_loop(args, argv, pattern, start, Some(next), os, false, Some(rest), tuples1)
                                }
                            },
                            None => Ok((Some(seq![option_string[0]] + e), start + 1, tuples1)),
                        }
                    }
                } else if count == 1 {
                    Ok((None, start + 1, tuples.push((act, seq![e]))))
                } else {
                    Err(ignored_explicit(args, act, e))
                },
            },
            None => match spec_match_argument(args, act, pattern.skip(start + 1)) {
                Err(x) => Err(x),
                Ok(count) => Ok(
                    (
                        None,
                        start + 1 + count,
                        tuples.push((act, argv.subrange(start + 1, start + 1 + count))),
                    ),
                ),
            },
        },
    }
}

/// `consume_optional()` at `start`: the new state and where the next
/// argument starts.
pub open spec fn spec_consume_optional(args: Seq<Argument>, argv: Seq<Seq<u32>>, st: PState, start: int) -> Result<
    (PState, int),
    StopView,
> {
    match st.options[start] {
        None => Ok((st, start + 1)),
        Some(t) => match co_loop(
            args,
            argv,
            st.pattern,
            start,
            t.action,
            t.option_string,
            t.sep,
            t.explicit_arg,
            seq![],
        ) {
            Err(e) => Err(e),
            Ok((extra, stop, tuples)) => {
                let st1 = match extra {
                    Some(x) => PState { extras: st.extras.push(x), ..st },
                    None => st,
                };
                match apply_actions(args, st1, tuples) {
                    Err(e) => Err(e),
                    Ok(st2) => Ok((st2, stop)),
                }
            },
        },
    }
}

/// The positionals `matched` take `counts` argument strings each from
/// `start` on.
pub open spec fn apply_positionals(
    args: Seq<Argument>,
    argv: Seq<Seq<u32>>,
    st: PState,
    matched: Seq<int>,
    counts: Seq<int>,
    start: int,
) -> Result<(PState, int), StopView>
    decreases matched.len(),
{
    if matched.len() == 0 || counts.len() == 0 {
        Ok((st, start))
    } else {
        match spec_take_action(args, st, matched[0], argv.subrange(start, start + counts[0])) {
            Err(e) => Err(e),
            Ok(s1) => apply_positionals(
                args,
                argv,
                s1,
                matched.drop_first(),
                counts.drop_first(),
                start + counts[0],
            ),
        }
    }
}

/// `consume_positionals()` at `start`: as many positionals as match take
/// their argument strings.
pub open spec fn spec_consume_positionals(args: Seq<Argument>, argv: Seq<Seq<u32>>, st: PState, start: int) -> Result<
    (PState, int),
    StopView,
> {
    let counts = spec_match_partial(args, st.positionals, st.pattern.skip(start));
    let n = counts.len() as int;
    apply_positionals(
        args,
        argv,
        PState { positionals: st.positionals.skip(n), ..st },
        st.positionals.take(n),
        counts,
        start,
    )
}

/// The smallest option index `>= start`.
pub open spec fn next_option(options: Seq<Option<Tup>>, start: int) -> int
    decreases options.len() - start,
{
    if start < 0 || start >= options.len() {
        options.len() as int
    } else if options[start] is Some {
        start
    } else {
        next_option(options, start + 1)
    }
}

/// The largest option index below `n`.
pub open spec fn last_option(options: Seq<Option<Tup>>, n: int) -> Option<int>
    decreases n,
{
    if n <= 0 || n > options.len() {
        None
    } else if options[n - 1] is Some {
        Some(n - 1)
    } else {
        last_option(options, n - 1)
    }
}

/// The loop of `_parse_known_args()` from `start`, while an option at or
/// after `start` is left (`max` is the last one).
pub open spec fn main_loop(args: Seq<Argument>, argv: Seq<Seq<u32>>, st: PState, start: int, max: int) -> Result<
    (PState, int),
    StopView,
>
    decreases argv.len() - start,
{
    if !(0 <= start <= max && max < argv.len()) {
        Ok((st, start))
    } else {
        let next = next_option(st.options, start);
        let first = if start != next {
            spec_consume_positionals(args, argv, st, start)
        } else {
            Ok((st, start))
        };
        match first {
            Err(e) => Err(e),
            Ok((st1, pe)) => if start != next && pe > start {
                if pe <= argv.len() {
                    main_loop(args, argv, st1, pe, max)
                } else {
                    Ok((st1, pe))
                }
            } else {
                let st2 = if st1.options[pe] is None {
                    PState { extras: st1.extras + argv.subrange(pe, next), ..st1 }
                } else {
                    st1
                };
                let s2 = if st1.options[pe] is None {
                    next
                } else {
                    pe
                };
                match spec_consume_optional(args, argv, st2, s2) {
                    Err(e) => Err(e),
                    Ok((st3, s3)) => if start < s3 <= argv.len() {
                        main_loop(args, argv, st3, s3, max)
                    } else {
                        Ok((st3, s3))
                    },
                }
            },
        }
    }
}

/// The classes and option tuples of the argument strings from `k` on:
/// `A` for a positional argument string, `O` for an option, `-` for the
/// first `--` (everything after it is `A`).
pub open spec fn classify(args: Seq<Argument>, argv: Seq<Seq<u32>>, k: int) -> Result<
    (Seq<u8>, Seq<Option<Tup>>),
    StopView,
>
    decreases argv.len() - k,
{
    if k < 0 || k >= argv.len() {
        Ok((seq![], seq![]))
    } else if argv[k] == code_points("--"@) {
        Ok(
            (
                seq![45u8] + Seq::new((argv.len() - k - 1) as nat, |i: int| 65u8),
                Seq::new((argv.len() - k) as nat, |i: int| None::<Tup>),
            ),
        )
    } else {
        match spec_parse_optional(args, argv[k]) {
            Err(e) => Err(e),
            Ok(o) => match classify(args, argv, k + 1) {
                Err(e) => Err(e),
                Ok((p, os)) => Ok(
                    (
                        seq![
                            if o is Some {
                                79u8
                            } else {
                                65u8
                            },
                        ] + p,
                        seq![o] + os,
                    ),
                ),
            },
        }
    }
}

proof fn lemma_classify_after_double_dash(args: Seq<Argument>, argv: Seq<Seq<u32>>, i: int, k: int)
    requires
        0 <= i <= k < argv.len(),
        argv[k] == code_points("--"@),
        forall|j: int| i <= j < k ==> #[trigger] argv[j] != code_points("--"@),
    ensures
        classify(args, argv, i) matches Ok((p, os)) ==> {
            &&& p.len() == argv.len() - i
            &&& os.len() == argv.len() - i
            &&& p[k - i] == 45u8
            &&& forall|m: int| k - i < m < argv.len() - i ==> #[trigger] os[m] is None && p[m] == 65u8
        },
    decreases k - i,
{
    if i < k {
        assert(argv[i] != code_points("--"@));
        lemma_classify_after_double_dash(args, argv, i + 1, k);
        if let Ok((p, os)) = classify(args, argv, i) {
            let (p1, os1) = classify(args, argv, i + 1)->Ok_0;
            assert(p.drop_first() =~= p1);
            assert(os.drop_first() =~= os1);
            assert forall|m: int| k - i < m < argv.len() - i implies #[trigger] os[m] is None && p[m] == 65u8 by {
                assert(os[m] == os1[m - 1]);
                assert(p[m] == p1[m - 1]);
            }
        }
    }
}

/// `--` ends the options: after the first `--`, every argument string is
/// a positional one (class `A`, no option), and the `--` itself has its
/// own class (`-`).
pub proof fn lemma_double_dash_ends_options(args: Seq<Argument>, argv: Seq<Seq<u32>>, k: int)
    requires
        0 <= k < argv.len(),
        argv[k] == code_points("--"@),
        forall|j: int| 0 <= j < k ==> #[trigger] argv[j] != code_points("--"@),
    ensures
        classify(args, argv, 0) matches Ok((p, os)) ==> {
            &&& p[k] == 45u8
            &&& forall|j: int| k < j < argv.len() ==> #[trigger] os[j] is None && p[j] == 65u8
        },
{
    lemma_classify_after_double_dash(args, argv, 0, k);
}

/// The indices of the positional arguments from `i` on.
pub open spec fn positional_from(args: Seq<Argument>, i: int) -> Seq<int>
    decreases args.len() - i,
{
    if i < 0 || i >= args.len() {
        seq![]
    } else if is_positional(args[i]) {
        seq![i] + positional_from(args, i + 1)
    } else {
        positional_from(args, i + 1)
    }
}

/// The namespace `values` with the defaults of the arguments from `i` on
/// (`False` for a flag).
pub open spec fn defaults_from(args: Seq<Argument>, i: int, values: Seq<(Seq<char>, ValueView)>) -> Seq<
    (Seq<char>, ValueView),
>
    decreases args.len() - i,
{
    if i < 0 || i >= args.len() {
        values
    } else {
        let a = args[i];
        let v1 = match a.kind {
            Kind::Help => values,
            Kind::StoreTrue => set_value(values, a.dest@, ValueView::Bool(false)),
            _ => set_value(values, a.dest@, default_view(a)),
        };
        defaults_from(args, i + 1, v1)
    }
}

/// The names of the required arguments from `i` on that were not seen.
pub open spec fn missing_required(args: Seq<Argument>, seen: Seq<bool>, i: int) -> Seq<Seq<char>>
    decreases args.len() - i,
{
    if i < 0 || i >= args.len() {
        seq![]
    } else if args[i].required && !seen[i] {
        seq![action_name(args[i])] + missing_required(args, seen, i + 1)
    } else {
        missing_required(args, seen, i + 1)
    }
}

/// The end of `parse_known_args()` after its loop ended in `ml`: the
/// positionals left consume their argument strings, the rest is
/// unrecognized, and every required argument must have been seen.
pub open spec fn after_loop(args: Seq<Argument>, argv: Seq<Seq<u32>>, ml: Result<(PState, int), StopView>) -> Result<
    (Seq<(Seq<char>, ValueView)>, Seq<Seq<u32>>),
    StopView,
> {
    match ml {
        Err(e) => Err(e),
        Ok((st1, s1)) => match spec_consume_positionals(args, argv, st1, s1) {
            Err(e) => Err(e),
            Ok((st2, stop)) => {
                let missing = missing_required(args, st2.seen, 0);
                if missing.len() > 0 {
                    Err(
                        StopView::Error(
                            code_points("the following arguments are required: "@) + code_points(
                                join(missing, seq![',', ' ']),
                            ),
                        ),
                    )
                } else {
                    Ok((st2.values, st2.extras + argv.skip(stop)))
                }
            },
        },
    }
}

/// The state `_parse_known_args()` starts its loop in.
pub open spec fn initial_pstate(args: Seq<Argument>, pattern: Seq<u8>, options: Seq<Option<Tup>>) -> PState {
    PState {
        pattern,
        options,
        extras: seq![],
        positionals: positional_from(args, 0),
        seen: Seq::new(args.len(), |i: int| false),
        values: defaults_from(args, 0, seq![]),
    }
}

/// `parse_known_args()`: the namespace and the unrecognized arguments.
pub open spec fn spec_parse_known_args(args: Seq<Argument>, argv: Seq<Seq<u32>>) -> Result<
    (Seq<(Seq<char>, ValueView)>, Seq<Seq<u32>>),
    StopView,
> {
    match classify(args, argv, 0) {
        Err(e) => Err(e),
        Ok((pattern, options)) => {
            let st0 = initial_pstate(args, pattern, options);
            after_loop(
                args,
                argv,
                match last_option(options, options.len() as int) {
                    Some(max) => main_loop(args, argv, st0, 0, max),
                    None => Ok((st0, 0)),
                },
            )
        },
    }
}

/// What [`ArgumentParser::parse_args`] decides, over plain values.
pub enum OutcomeView {
    /// Run with this namespace.
    Run(Seq<(Seq<char>, ValueView)>),
    /// Print the help.
    Help,
    /// A usage error with this message.
    Error(Seq<u32>),
}

/// Every extra argument preceded by a space.
pub open spec fn spaced(extras: Seq<Seq<u32>>) -> Seq<u32>
    decreases extras.len(),
{
    if extras.len() == 0 {
        seq![]
    } else {
        seq![32u32] + extras[0] + spaced(extras.drop_first())
    }
}

/// `parser.parse_args(argv)`.
pub open spec fn spec_parse_args(args: Seq<Argument>, argv: Seq<Seq<u32>>) -> OutcomeView {
    match spec_parse_known_args(args, argv) {
        Err(StopView::Help) => OutcomeView::Help,
        Err(StopView::Error(m)) => OutcomeView::Error(m),
        Ok((values, extras)) => if extras.len() == 0 {
            OutcomeView::Run(values)
        } else {
            OutcomeView::Error(code_points("unrecognized arguments:"@) + spaced(extras))
        },
    }
}

/// The view of an [`Outcome`].
pub open spec fn outcome_view(o: Outcome) -> OutcomeView {
    match o {
        Outcome::Run(v) => OutcomeView::Run(v.entries()),
        Outcome::Help => OutcomeView::Help,
        Outcome::Error(m) => OutcomeView::Error(m@),
    }
}


// ---------------------------------------------------------------------
// The executable parse.

/// The actions to take, over plain values.
spec fn action_views(v: Seq<(usize, Vec<PyStr>)>) -> Seq<(int, Seq<Seq<u32>>)> {
    v.map_values(|t: (usize, Vec<PyStr>)| (t.0 as int, py_views(t.1@)))
}

spec fn opt_tup(o: Option<OptionTuple>) -> Option<Tup> {
    match o {
        Some(t) => Some(tup_view(t)),
        None => None,
    }
}

/// `v[from..]`, copied.
fn skip_bytes(v: &Vec<u8>, from: usize) -> (r: Vec<u8>)
    requires
        from <= v@.len(),
    ensures
        r@ == v@.skip(from as int),
{
    let mut out: Vec<u8> = Vec::new();
    let mut i = from;
    while i < v.len()
        invariant
            from <= i <= v@.len(),
            out@ == v@.subrange(from as int, i as int),
        decreases v@.len() - i,
    {
        out.push(v[i]);
        assert(v@.subrange(from as int, i + 1) =~= v@.subrange(from as int, i as int).push(v@[i as int]));
        i = i + 1;
    }
    assert(v@.subrange(from as int, i as int) =~= v@.skip(from as int));
    out
}

/// Copies of `v[from..to]`, appended to `out`.
fn push_strs(out: &mut Vec<PyStr>, v: &[PyStr], from: usize, to: usize)
    requires
        from <= to <= v@.len(),
    ensures
        py_views(final(out)@) == py_views(old(out)@) + py_views(v@).subrange(from as int, to as int),
{
    let ghost start = py_views(out@);
    let mut i = from;
    while i < to
        invariant
            from <= i <= to <= v@.len(),
            py_views(out@) == start + py_views(v@).subrange(from as int, i as int),
        decreases to - i,
    {
        let ghost before = out@;
        out.push(v[i].copy());
        assert(py_views(out@) =~= py_views(before).push(v@[i as int]@));
        assert(py_views(v@).subrange(from as int, i + 1) =~= py_views(v@).subrange(from as int, i as int).push(
            v@[i as int]@,
        ));
        i = i + 1;
    }
}

/// Copies of `v[from..to]`.
fn sub_strs(v: &[PyStr], from: usize, to: usize) -> (r: Vec<PyStr>)
    requires
        from <= to <= v@.len(),
    ensures
        py_views(r@) == py_views(v@).subrange(from as int, to as int),
{
    let mut out: Vec<PyStr> = Vec::new();
    assert(py_views(out@) =~= Seq::<Seq<u32>>::empty());
    push_strs(&mut out, v, from, to);
    assert(py_views(out@) =~= py_views(v@).subrange(from as int, to as int));
    out
}

/// Removes the first `--` of `strings`.
fn remove_first_dashes(strings: &mut Vec<PyStr>)
    ensures
        py_views(final(strings)@) == (match index_of_text(py_views(old(strings)@), code_points("--"@)) {
            Some(i) => py_views(old(strings)@).remove(i),
            None => py_views(old(strings)@),
        }),
{
    let ghost sv = py_views(strings@);
    let mut i: usize = 0;
    assert(sv.skip(0) =~= sv);
    while i < strings.len()
        invariant
            0 <= i <= strings@.len(),
            sv == py_views(strings@),
            sv == py_views(old(strings)@),
            index_of_text(sv, code_points("--"@)) == (match index_of_text(sv.skip(i as int), code_points("--"@)) {
                Some(k) => Some(k + i),
                None => None,
            }),
        decreases strings@.len() - i,
    {
        assert(sv.skip(i as int)[0] == strings@[i as int]@);
        assert(sv.skip(i as int).drop_first() =~= sv.skip(i + 1));
        if strings[i].eq_str("--") {
            strings.remove(i);
            assert(py_views(strings@) =~= sv.remove(i as int));
            return;
        }
        i = i + 1;
    }
    assert(sv.skip(i as int) =~= Seq::<Seq<u32>>::empty());
}

/// The state of `_parse_known_args()`.
struct State {
    /// One of `O`, `A`, `-` per argument string.
    pattern: Vec<u8>,
    /// The option tuples of the `O` arguments, by index.
    options: Vec<Option<OptionTuple>>,
    extras: Vec<PyStr>,
    /// The positionals left to be parsed.
    positionals: Vec<usize>,
    seen: Vec<bool>,
    values: Values,
}

impl State {
    spec fn view(&self) -> PState {
        PState {
            pattern: self.pattern@,
            options: self.options@.map_values(|o: Option<OptionTuple>| opt_tup(o)),
            extras: py_views(self.extras@),
            positionals: ints(self.positionals@),
            seen: self.seen@,
            values: self.values.entries(),
        }
    }

    spec fn wf(&self, n_args: nat, n_argv: nat) -> bool {
        &&& self.pattern@.len() == n_argv
        &&& self.options@.len() == n_argv
        &&& self.seen@.len() == n_args
        &&& forall|k: int| 0 <= k < self.positionals@.len() ==> #[trigger] self.positionals@[k] < n_args
        &&& forall|k: int|
            0 <= k < self.options@.len() ==> (#[trigger] self.options@[k] matches Some(t) ==> (
            t.option_string@.len() >= 1 && (t.action matches Some(a) ==> a < n_args)))
    }

    /// `take_action()` with `_get_values()`.
    fn take_action(&mut self, parser: &ArgumentParser, action: usize, argument_strings: Vec<PyStr>) -> (r:
        Result<(), Stop>)
        requires
            action < parser.arguments@.len(),
            old(self).seen@.len() == parser.arguments@.len(),
        ensures
            final(self).pattern@ == old(self).pattern@,
            final(self).options@ == old(self).options@,
            final(self).extras@ == old(self).extras@,
            final(self).positionals@ == old(self).positionals@,
            final(self).seen@.len() == old(self).seen@.len(),
            match r {
                Ok(()) => spec_take_action(
                    parser.arguments@,
                    old(self).view(),
                    action as int,
                    py_views(argument_strings@),
                ) == Ok::<PState, StopView>(final(self).view()),
                Err(e) => spec_take_action(
                    parser.arguments@,
                    old(self).view(),
                    action as int,
                    py_views(argument_strings@),
                ) == Err::<PState, StopView>(stop_view(e)),
            },
    {
        let ghost st = self.view();
        self.seen.set(action, true);
        let argument = &parser.arguments[action];
        let mut strings = argument_strings;
        if argument.is_positional() {
            remove_first_dashes(&mut strings);
        }
        let ghost sv = py_views(strings@);
        let value = match argument.kind {
            Kind::Help => {
                return Err(Stop::Help);
            },
            Kind::StoreTrue => Value::Bool(true),
            _ => {
                let ghost before = strings@;
                match strings.pop() {
                    None => match &argument.default {
                        Some(d) => Value::Str(d.copy()),
                        None => Value::Unset,
                    },
                    Some(v) => {
                        assert(v@ == sv.last());
                        if argument.kind == Kind::StoreNullable && v.is_empty() {
                            Value::Unset
                        } else {
                            Value::Str(v)
                        }
                    },
                }
            },
        };
        self.values.set(argument.dest, value);
        assert(self.view().seen == st.seen.update(action as int, true));
        Ok(())
    }
}

impl ArgumentParser {
    /// The loop of `consume_optional()` for the option tuple `t` at
    /// `start`.
    fn consume_optional_loop(&self, argv: &[PyStr], pattern: &Vec<u8>, start: usize, t: &OptionTuple) -> (r:
        Result<(Option<PyStr>, usize, Vec<(usize, Vec<PyStr>)>), Stop>)
        requires
            start < argv@.len(),
            pattern@.len() == argv@.len(),
            t.option_string@.len() >= 1,
            t.action matches Some(a) ==> a < self.arguments@.len(),
        ensures
            match r {
                Ok((extra, stop, tuples)) => co_loop(
                    self.arguments@,
                    py_views(argv@),
                    pattern@,
                    start as int,
                    tup_view(*t).action,
                    t.option_string@,
                    t.sep,
                    opt_seq(t.explicit_arg),
                    seq![],
                ) == Ok::<(Option<Seq<u32>>, int, Seq<(int, Seq<Seq<u32>>)>), StopView>(
                    (opt_seq(extra), stop as int, action_views(tuples@)),
                ) && start < stop <= argv@.len() && forall|k: int|
                    0 <= k < tuples@.len() ==> #[trigger] tuples@[k].0 < self.arguments@.len(),
                Err(e) => co_loop(
                    self.arguments@,
                    py_views(argv@),
                    pattern@,
                    start as int,
                    tup_view(*t).action,
                    t.option_string@,
                    t.sep,
                    opt_seq(t.explicit_arg),
                    seq![],
                ) == Err::<(Option<Seq<u32>>, int, Seq<(int, Seq<Seq<u32>>)>), StopView>(stop_view(e)),
            },
    {
        let ghost args = self.arguments@;
        let ghost av = py_views(argv@);
        let mut action = t.action;
        let mut option_string = t.option_string.copy();
        let mut sep = t.sep;
        let mut explicit_arg = copy_opt(&t.explicit_arg);
        let mut tuples: Vec<(usize, Vec<PyStr>)> = Vec::new();
        let ghost goal = co_loop(
            args,
            av,
            pattern@,
            start as int,
            tup_view(*t).action,
            t.option_string@,
            t.sep,
            opt_seq(t.explicit_arg),
            seq![],
        );
        assert(action_views(tuples@) =~= Seq::<(int, Seq<Seq<u32>>)>::empty());
        let mut a_only: Vec<u8> = Vec::new();
        a_only.push(65u8);
        let n = argv.len();
        loop
            invariant
                n == argv@.len(),
                goal == co_loop(
                    self.arguments@,
                    py_views(argv@),
                    pattern@,
                    start as int,
                    tup_view(*t).action,
                    t.option_string@,
                    t.sep,
                    opt_seq(t.explicit_arg),
                    seq![],
                ),
                args == self.arguments@,
                av == py_views(argv@),
                start < argv@.len(),
                pattern@.len() == argv@.len(),
                a_only@ == seq![65u8],
                option_string@.len() >= 1,
                action matches Some(a) ==> a < args.len(),
                forall|k: int| 0 <= k < tuples@.len() ==> #[trigger] tuples@[k].0 < args.len(),
                goal == co_loop(
                    args,
                    av,
                    pattern@,
                    start as int,
                    match action {
                        Some(a) => Some(a as int),
                        None => None,
                    },
                    option_string@,
                    sep,
                    opt_seq(explicit_arg),
                    action_views(tuples@),
                ),
                action is None ==> tuples@.len() == 0,
            decreases (match opt_seq(explicit_arg) {
                Some(e) => e.len(),
                None => 0,
            }),
        {
            let act = match action {
                None => {
                    let extra = argv[start].copy();
                    assert(extra@ == av[start as int]);
                    let empty: Vec<(usize, Vec<PyStr>)> = Vec::new();
                    assert(action_views(empty@) =~= Seq::<(int, Seq<Seq<u32>>)>::empty());
                    return Ok((Some(extra), start + 1, empty));
                },
                Some(a) => a,
            };
            match explicit_arg {
                Some(explicit) => {
                    let arg_count = match self.match_argument(act, a_only.as_slice()) {
                        Ok(c) => c,
                        Err(e) => {
                            return Err(e);
                        },
                    };
                    if arg_count == 0 && !(option_string.len() > 1 && option_string.0[1] == DASH)
                        && !explicit.is_empty() {
                        if sep || explicit.0[0] == DASH {
                            return Err(self.ignored_explicit_argument(act, &explicit));
                        }
                        let ghost tv0 = action_views(tuples@);
                        let no_strings: Vec<PyStr> = Vec::new();
                        assert(py_views(no_strings@) =~= Seq::<Seq<u32>>::empty());
                        tuples.push((act, no_strings));
                        assert(action_views(tuples@) =~= tv0.push((act as int, Seq::<Seq<u32>>::empty())));
                        let first = explicit.0[0];
                        let prefix_char = option_string.0[0];
                        let mut os: Vec<u32> = Vec::new();
                        os.push(prefix_char);
                        os.push(first);
                        assert(os@ =~= seq![option_string@[0], explicit@[0]]);
                        option_string = PyStr(os);
                        match self.lookup_option(&option_string) {
                            Some(next) => {
                                action = Some(next);
                                let rest = explicit.slice_from(1);
                                if rest.is_empty() {
                                    sep = false;
                                    explicit_arg = None;
                                } else if rest.0[0] == 61 {
                                    sep = true;
                                    explicit_arg = Some(rest.slice_from(1));
                                } else {
                                    sep = false;
                                    explicit_arg = Some(rest);
                                }
                            },
                            None => {
                                let mut extra: Vec<u32> = Vec::new();
                                extra.push(prefix_char);
                                push_codes(&mut extra, &explicit.0);
                                return Ok((Some(PyStr(extra)), start + 1, tuples));
                            },
                        }
                    } else if arg_count == 1 {
                        let ghost tv0 = action_views(tuples@);
                        let ghost e = explicit@;
                        let mut v: Vec<PyStr> = Vec::new();
                        v.push(explicit);
                        assert(py_views(v@) =~= seq![e]);
                        tuples.push((act, v));
                        assert(action_views(tuples@) =~= tv0.push((act as int, seq![e])));
                        return Ok((None, start + 1, tuples));
                    } else {
                        return Err(self.ignored_explicit_argument(act, &explicit));
                    }
                },
                None => {
                    let s1 = start + 1;
                    let rest_pattern = skip_bytes(pattern, s1);
                    let count = match self.match_argument(act, rest_pattern.as_slice()) {
                        Ok(c) => c,
                        Err(e) => {
                            return Err(e);
                        },
                    };
                    let stop = s1 + count;
                    let ghost tv0 = action_views(tuples@);
                    let strings = sub_strs(argv, s1, stop);
                    tuples.push((act, strings));
                    assert(action_views(tuples@) =~= tv0.push((act as int, av.subrange(s1 as int, stop as int))));
                    return Ok((None, stop, tuples));
                },
            }
        }
    }
}


impl State {
    /// `consume_optional()`.
    fn consume_optional(&mut self, parser: &ArgumentParser, argv: &[PyStr], start: usize) -> (r: Result<
        usize,
        Stop,
    >)
        requires
            old(self).wf(parser.arguments@.len(), argv@.len()),
            start < argv@.len(),
            old(self).options@[start as int] is Some,
        ensures
            final(self).wf(parser.arguments@.len(), argv@.len()),
            final(self).pattern@ == old(self).pattern@,
            final(self).options@ == old(self).options@,
            match r {
                Ok(stop) => spec_consume_optional(
                    parser.arguments@,
                    py_views(argv@),
                    old(self).view(),
                    start as int,
                ) == Ok::<(PState, int), StopView>((final(self).view(), stop as int)) && start < stop
                    <= argv@.len(),
                Err(e) => spec_consume_optional(
                    parser.arguments@,
                    py_views(argv@),
                    old(self).view(),
                    start as int,
                ) == Err::<(PState, int), StopView>(stop_view(e)),
            },
    {
        let ghost args = parser.arguments@;
        let ghost av = py_views(argv@);
        let ghost st0 = self.view();
        let res = match &self.options[start] {
            Some(t) => parser.consume_optional_loop(argv, &self.pattern, start, t),
            None => {
                return Ok(start + 1);
            },
        };
        assert(st0.options[start as int] == opt_tup(self.options@[start as int]));
        match res {
            Err(e) => Err(e),
            Ok((extra, stop, tuples)) => {
                match extra {
                    Some(x) => {
                        let ghost before = self.extras@;
                        self.extras.push(x);
                        assert(py_views(self.extras@) =~= py_views(before).push(x@));
                    },
                    None => {},
                }
                let ghost st1 = self.view();
                let ghost all = action_views(tuples@);
                let mut rest = tuples;
                assert(all.skip(0) =~= all);
                let ghost mut k: int = 0;
                while rest.len() > 0
                    invariant
                        self.wf(args.len(), argv@.len()),
                        args == parser.arguments@,
                        av == py_views(argv@),
                        st0 == old(self).view(),
                        self.pattern@ == old(self).pattern@,
                        self.options@ == old(self).options@,
                        0 <= k <= all.len(),
                        action_views(rest@) == all.skip(k),
                        forall|j: int| 0 <= j < rest@.len() ==> #[trigger] rest@[j].0 < args.len(),
                        spec_consume_optional(args, av, st0, start as int) == (match apply_actions(
                            args,
                            st1,
                            all,
                        ) {
                            Err(e) => Err(e),
                            Ok(st2) => Ok((st2, stop as int)),
                        }),
                        apply_actions(args, st1, all) == apply_actions(args, self.view(), all.skip(k)),
                    decreases rest@.len(),
                {
                    let ghost rv = rest@;
                    let ghost sv = self.view();
                    let (act, strings) = rest.remove(0);
                    assert(all.skip(k)[0] == (act as int, py_views(strings@)));
                    assert(action_views(rest@) =~= all.skip(k + 1)) by {
                        assert(rest@ =~= rv.drop_first());
                        assert(all.skip(k).drop_first() =~= all.skip(k + 1));
                    }
                    let ghost tup0 = all.skip(k)[0];
                    match self.take_action(parser, act, strings) {
                        Err(e) => {
                            assert(apply_actions(args, sv, all.skip(k)) == Err::<PState, StopView>(
                                stop_view(e),
                            ));
                            assert(apply_actions(args, st1, all) == Err::<PState, StopView>(
                                stop_view(e),
                            ));
                            assert(spec_consume_optional(args, av, st0, start as int) == Err::<
                                (PState, int),
                                StopView,
                            >(stop_view(e)));
                            return Err(e);
                        },
                        Ok(()) => {
                            assert(apply_actions(args, sv, all.skip(k)) == apply_actions(
                                args,
                                self.view(),
                                all.skip(k).drop_first(),
                            ));
                            assert(all.skip(k).drop_first() =~= all.skip(k + 1));
                        },
                    }
                    proof {
                        k = k + 1;
                    }
                }
                assert(all.skip(k) =~= Seq::<(int, Seq<Seq<u32>>)>::empty());
                Ok(stop)
            },
        }
    }

    /// `consume_positionals()`.
    fn consume_positionals(&mut self, parser: &ArgumentParser, argv: &[PyStr], start: usize) -> (r:
        Result<usize, Stop>)
        requires
            old(self).wf(parser.arguments@.len(), argv@.len()),
            start <= argv@.len(),
        ensures
            final(self).wf(parser.arguments@.len(), argv@.len()),
            final(self).pattern@ == old(self).pattern@,
            final(self).options@ == old(self).options@,
            match r {
                Ok(stop) => spec_consume_positionals(
                    parser.arguments@,
                    py_views(argv@),
                    old(self).view(),
                    start as int,
                ) == Ok::<(PState, int), StopView>((final(self).view(), stop as int)) && start <= stop
                    <= argv@.len(),
                Err(e) => spec_consume_positionals(
                    parser.arguments@,
                    py_views(argv@),
                    old(self).view(),
                    start as int,
                ) == Err::<(PState, int), StopView>(stop_view(e)),
            },
    {
        let ghost args = parser.arguments@;
        let ghost av = py_views(argv@);
        let ghost st0 = self.view();
        let rest_pattern = skip_bytes(&self.pattern, start);
        let counts = parser.match_arguments_partial(&self.positionals, rest_pattern.as_slice());
        let n = counts.len();
        let mut matched: Vec<usize> = Vec::new();
        let mut i: usize = 0;
        while i < n
            invariant
                0 <= i <= n <= self.positionals@.len(),
                matched@ == self.positionals@.take(i as int),
            decreases n - i,
        {
            matched.push(self.positionals[i]);
            assert(self.positionals@.take(i + 1) =~= self.positionals@.take(i as int).push(
                self.positionals@[i as int],
            ));
            i = i + 1;
        }
        let mut left: Vec<usize> = Vec::new();
        while i < self.positionals.len()
            invariant
                n <= i <= self.positionals@.len(),
                left@ == self.positionals@.subrange(n as int, i as int),
            decreases self.positionals@.len() - i,
        {
            left.push(self.positionals[i]);
            assert(self.positionals@.subrange(n as int, i + 1) =~= self.positionals@.subrange(
                n as int,
                i as int,
            ).push(self.positionals@[i as int]));
            i = i + 1;
        }
        assert(ints(matched@) =~= st0.positionals.take(n as int));
        assert(ints(left@) =~= st0.positionals.skip(n as int));
        assert forall|k: int| 0 <= k < matched@.len() implies #[trigger] matched@[k] < args.len() by {
            assert(matched@[k] == self.positionals@[k]);
        }
        assert forall|k: int| 0 <= k < left@.len() implies #[trigger] left@[k] < args.len() by {
            assert(left@[k] == self.positionals@[n + k]);
        }
        self.positionals = left;
        let ghost cv = ints(counts@);
        let ghost mv = ints(matched@);
        assert(self.view() == PState { positionals: st0.positionals.skip(n as int), ..st0 });
        let mut start_index = start;
        let mut k: usize = 0;
        let alen = argv.len();
        assert(mv.skip(0) =~= mv);
        assert(cv.skip(0) =~= cv);
        while k < n
            invariant
                self.wf(args.len(), argv@.len()),
                args == parser.arguments@,
                av == py_views(argv@),
                st0 == old(self).view(),
                self.pattern@ == old(self).pattern@,
                self.options@ == old(self).options@,
                n == counts@.len(),
                n == matched@.len(),
                0 <= k <= n,
                cv == ints(counts@),
                mv == ints(matched@),
                forall|j: int| 0 <= j < matched@.len() ==> #[trigger] matched@[j] < args.len(),
                start <= start_index,
                alen == argv@.len(),
                start_index + total(cv.skip(k as int)) <= argv@.len(),
                spec_consume_positionals(args, av, st0, start as int) == apply_positionals(
                    args,
                    av,
                    self.view(),
                    mv.skip(k as int),
                    cv.skip(k as int),
                    start_index as int,
                ),
            decreases n - k,
        {
            assert(cv.skip(k as int)[0] == counts@[k as int]);
            assert(mv.skip(k as int)[0] == matched@[k as int]);
            assert(cv.skip(k as int).drop_first() =~= cv.skip(k + 1));
            assert(mv.skip(k as int).drop_first() =~= mv.skip(k + 1));
            proof {
                lemma_total_nonneg(cv.skip(k + 1));
            }
            let count = counts[k];
            let strings = sub_strs(argv, start_index, start_index + count);
            let ghost sv = self.view();
            match self.take_action(parser, matched[k], strings) {
                Err(e) => {
                    assert(apply_positionals(
                        args,
                        av,
                        sv,
                        mv.skip(k as int),
                        cv.skip(k as int),
                        start_index as int,
                    ) == Err::<(PState, int), StopView>(stop_view(e)));
                    assert(spec_consume_positionals(args, av, st0, start as int) == Err::<
                        (PState, int),
                        StopView,
                    >(stop_view(e)));
                    return Err(e);
                },
                Ok(()) => {},
            }
            start_index = start_index + count;
            k = k + 1;
        }
        assert(mv.skip(k as int) =~= Seq::<int>::empty());
        Ok(start_index)
    }
}

proof fn lemma_total_nonneg(c: Seq<int>)
    requires
        forall|i: int| 0 <= i < c.len() ==> c[i] >= 0,
    ensures
        total(c) >= 0,
    decreases c.len(),
{
    if c.len() > 0 {
        lemma_total_nonneg(c.drop_first());
    }
}


/// The smallest option index `>= start`; there is one at `max`.
fn next_option_index(options: &Vec<Option<OptionTuple>>, start: usize, max: usize) -> (r: usize)
    requires
        start <= max < options@.len(),
        options@[max as int] is Some,
    ensures
        r == next_option(options@.map_values(|o: Option<OptionTuple>| opt_tup(o)), start as int),
        start <= r <= max,
        options@[r as int] is Some,
{
    let ghost ov = options@.map_values(|o: Option<OptionTuple>| opt_tup(o));
    let mut i = start;
    while options[i].is_none()
        invariant
            start <= i <= max < options@.len(),
            options@[max as int] is Some,
            ov == options@.map_values(|o: Option<OptionTuple>| opt_tup(o)),
            next_option(ov, start as int) == next_option(ov, i as int),
        decreases max - i,
    {
        assert(ov[i as int] is None);
        i = i + 1;
    }
    assert(ov[i as int] is Some);
    i
}

/// The largest option index.
fn last_option_index(options: &Vec<Option<OptionTuple>>) -> (r: Option<usize>)
    ensures
        match r {
            Some(m) => last_option(
                options@.map_values(|o: Option<OptionTuple>| opt_tup(o)),
                options@.len() as int,
            ) == Some(m as int) && m < options@.len() && options@[m as int] is Some,
            None => last_option(
                options@.map_values(|o: Option<OptionTuple>| opt_tup(o)),
                options@.len() as int,
            ) is None,
        },
{
    let ghost ov = options@.map_values(|o: Option<OptionTuple>| opt_tup(o));
    let mut n = options.len();
    while n > 0 && options[n - 1].is_none()
        invariant
            0 <= n <= options@.len(),
            ov == options@.map_values(|o: Option<OptionTuple>| opt_tup(o)),
            last_option(ov, options@.len() as int) == last_option(ov, n as int),
        decreases n,
    {
        assert(ov[n - 1] is None);
        n = n - 1;
    }
    if n == 0 {
        None
    } else {
        assert(ov[n - 1] is Some);
        Some(n - 1)
    }
}

impl ArgumentParser {
    /// The initial namespace: every default (`False` for flags).
    fn defaults(&self) -> (r: Values)
        ensures
            r.entries() == defaults_from(self.arguments@, 0, seq![]),
    {
        let mut values = Values::default();
        let mut i: usize = 0;
        while i < self.arguments.len()
            invariant
                0 <= i <= self.arguments@.len(),
                defaults_from(self.arguments@, 0, seq![]) == defaults_from(
                    self.arguments@,
                    i as int,
                    values.entries(),
                ),
            decreases self.arguments@.len() - i,
        {
            let argument = &self.arguments[i];
            match argument.kind {
                Kind::Help => {},
                Kind::StoreTrue => values.set(argument.dest, Value::Bool(false)),
                _ => {
                    let v = match &argument.default {
                        Some(d) => Value::Str(d.copy()),
                        None => Value::Unset,
                    };
                    values.set(argument.dest, v);
                },
            }
            i = i + 1;
        }
        values
    }

    /// The argument classes and option tuples of `args`.
    fn classify(&self, args: &[PyStr]) -> (r: Result<(Vec<u8>, Vec<Option<OptionTuple>>), Stop>)
        ensures
            match r {
                Ok((pattern, options)) => classify(self.arguments@, py_views(args@), 0) == Ok::<
                    (Seq<u8>, Seq<Option<Tup>>),
                    StopView,
                >((pattern@, options@.map_values(|o: Option<OptionTuple>| opt_tup(o))))
                    && pattern@.len() == args@.len() && options@.len() == args@.len() && forall|k: int|
                    0 <= k < options@.len() ==> (#[trigger] options@[k] matches Some(t) ==> (
                    t.option_string@.len() >= 1 && (t.action matches Some(a) ==> a
                    < self.arguments@.len()))),
                Err(e) => classify(self.arguments@, py_views(args@), 0) == Err::<
                    (Seq<u8>, Seq<Option<Tup>>),
                    StopView,
                >(stop_view(e)),
            },
    {
        let ghost a = self.arguments@;
        let ghost av = py_views(args@);
        let n = args.len();
        let mut pattern: Vec<u8> = Vec::new();
        let mut options: Vec<Option<OptionTuple>> = Vec::new();
        let mut k: usize = 0;
        let ghost goal = classify(a, av, 0);
        assert(pattern@ + Seq::<u8>::empty() =~= Seq::<u8>::empty());
        while k < n
            invariant
                0 <= k <= n,
                n == args@.len(),
                a == self.arguments@,
                av == py_views(args@),
                goal == classify(a, av, 0),
                pattern@.len() == k,
                options@.len() == k,
                forall|j: int|
                    0 <= j < options@.len() ==> (#[trigger] options@[j] matches Some(t) ==> (
                    t.option_string@.len() >= 1 && (t.action matches Some(x) ==> x < a.len()))),
                goal == (match classify(a, av, k as int) {
                    Err(e) => Err(e),
                    Ok((p, os)) => Ok(
                        (pattern@ + p, options@.map_values(|o: Option<OptionTuple>| opt_tup(o)) + os),
                    ),
                }),
            decreases n - k,
        {
            let ghost p0 = pattern@;
            let ghost o0 = options@.map_values(|o: Option<OptionTuple>| opt_tup(o));
            assert(av[k as int] == args@[k as int]@);
            if args[k].eq_str("--") {
                let ghost k0 = k;
                pattern.push(45u8);
                options.push(None);
                k = k + 1;
                while k < n
                    invariant
                        k0 < k <= n,
                        n == args@.len(),
                        pattern@.len() == k,
                        options@.len() == k,
                        pattern@ == p0 + seq![45u8] + Seq::new((k - k0 - 1) as nat, |i: int| 65u8),
                        options@.map_values(|o: Option<OptionTuple>| opt_tup(o)) == o0 + Seq::new(
                            (k - k0) as nat,
                            |i: int| None::<Tup>,
                        ),
                        forall|j: int|
                            0 <= j < options@.len() ==> (#[trigger] options@[j] matches Some(t) ==> (
                            t.option_string@.len() >= 1 && (t.action matches Some(x) ==> x < a.len()))),
                    decreases n - k,
                {
                    let ghost pb = pattern@;
                    let ghost ob = options@;
                    pattern.push(65u8);
                    options.push(None);
                    assert(options@.map_values(|o: Option<OptionTuple>| opt_tup(o)) =~= ob.map_values(
                        |o: Option<OptionTuple>| opt_tup(o),
                    ).push(None));
                    assert(pattern@ =~= p0 + seq![45u8] + Seq::new((k + 1 - k0 - 1) as nat, |i: int| 65u8));
                    assert(options@.map_values(|o: Option<OptionTuple>| opt_tup(o)) =~= o0 + Seq::new(
                        (k + 1 - k0) as nat,
                        |i: int| None::<Tup>,
                    ));
                    k = k + 1;
                }
                assert(pattern@ + Seq::<u8>::empty() =~= p0 + (seq![45u8] + Seq::new(
                    (n - k0 - 1) as nat,
                    |i: int| 65u8,
                )));
                assert(options@.map_values(|o: Option<OptionTuple>| opt_tup(o)) + Seq::<Option<Tup>>::empty()
                    =~= o0 + Seq::new((n - k0) as nat, |i: int| None::<Tup>));
            } else {
                match self.parse_optional(&args[k]) {
                    Err(e) => {
                        return Err(e);
                    },
                    Ok(None) => {
                        pattern.push(65u8);
                        options.push(None);
                        assert(options@.map_values(|o: Option<OptionTuple>| opt_tup(o)) =~= o0.push(None));
                    },
                    Ok(Some(t)) => {
                        let ghost tv = tup_view(t);
                        pattern.push(79u8);
                        options.push(Some(t));
                        assert(options@.map_values(|o: Option<OptionTuple>| opt_tup(o)) =~= o0.push(Some(tv)));
                    },
                }
                proof {
                    match classify(a, av, k + 1) {
                        Err(e) => {},
                        Ok((p, os)) => {
                            assert(pattern@ + p =~= p0 + (seq![pattern@.last()] + p));
                            assert(options@.map_values(|o: Option<OptionTuple>| opt_tup(o)) + os =~= o0 + (
                            seq![options@.map_values(|o: Option<OptionTuple>| opt_tup(o)).last()] + os));
                        },
                    }
                }
                k = k + 1;
            }
        }
        assert(pattern@ + Seq::<u8>::empty() =~= pattern@);
        assert(options@.map_values(|o: Option<OptionTuple>| opt_tup(o)) + Seq::<Option<Tup>>::empty()
            =~= options@.map_values(|o: Option<OptionTuple>| opt_tup(o)));
        Ok((pattern, options))
    }
}


impl ArgumentParser {
    /// The state `_parse_known_args()` starts its loop in.
    fn initial_state(&self, pattern: Vec<u8>, options: Vec<Option<OptionTuple>>) -> (r: State)
        ensures
            r.view() == initial_pstate(
                self.arguments@,
                pattern@,
                options@.map_values(|o: Option<OptionTuple>| opt_tup(o)),
            ),
            r.pattern@ == pattern@,
            r.options@ == options@,
            r.seen@.len() == self.arguments@.len(),
            forall|k: int| 0 <= k < r.positionals@.len() ==> #[trigger] r.positionals@[k] < self.arguments@.len(),
    {
        let ghost a = self.arguments@;
        let mut positionals: Vec<usize> = Vec::new();
        let mut seen: Vec<bool> = Vec::new();
        let mut i: usize = 0;
        assert(ints(positionals@) + positional_from(a, 0) =~= positional_from(a, 0));
        while i < self.arguments.len()
            invariant
                0 <= i <= a.len(),
                a == self.arguments@,
                positional_from(a, 0) == ints(positionals@) + positional_from(a, i as int),
                forall|k: int| 0 <= k < positionals@.len() ==> #[trigger] positionals@[k] < a.len(),
                seen@ == Seq::new(i as nat, |j: int| false),
            decreases a.len() - i,
        {
            let ghost before = ints(positionals@);
            if self.arguments[i].is_positional() {
                positionals.push(i);
                assert(ints(positionals@) =~= before.push(i as int));
                assert(before.push(i as int) + positional_from(a, i + 1) =~= before + (seq![i as int]
                    + positional_from(a, i + 1)));
            }
            seen.push(false);
            assert(seen@ =~= Seq::new((i + 1) as nat, |j: int| false));
            i = i + 1;
        }
        assert(ints(positionals@) + Seq::<int>::empty() =~= ints(positionals@));
        let values = self.defaults();
        let extras: Vec<PyStr> = Vec::new();
        assert(py_views(extras@) =~= Seq::<Seq<u32>>::empty());
        State { pattern, options, extras, positionals, seen, values }
    }

    /// `parse_known_args()`: the namespace and the unrecognized arguments.
    fn parse_known_args(&self, args: &[PyStr]) -> (r: Result<(Values, Vec<PyStr>), Stop>)
        ensures
            match r {
                Ok((values, extras)) => spec_parse_known_args(self.arguments@, py_views(args@)) == Ok::<
                    (Seq<(Seq<char>, ValueView)>, Seq<Seq<u32>>),
                    StopView,
                >((values.entries(), py_views(extras@))),
                Err(e) => spec_parse_known_args(self.arguments@, py_views(args@)) == Err::<
                    (Seq<(Seq<char>, ValueView)>, Seq<Seq<u32>>),
                    StopView,
                >(stop_view(e)),
            },
    {
        let ghost a = self.arguments@;
        let ghost av = py_views(args@);
        let n = args.len();
        let (pattern, options) = match self.classify(args) {
            Ok(c) => c,
            Err(e) => {
                return Err(e);
            },
        };
        let ghost ov = options@.map_values(|o: Option<OptionTuple>| opt_tup(o));
        let max_option = last_option_index(&options);
        let mut state = self.initial_state(pattern, options);
        let ghost st0 = state.view();
        let ghost ml = match last_option(ov, ov.len() as int) {
            Some(max) => main_loop(a, av, st0, 0, max),
            None => Ok((st0, 0int)),
        };
        assert(spec_parse_known_args(a, av) == after_loop(a, av, ml));
        let mut start: usize = 0;
        match max_option {
            None => {},
            Some(max) => {
                while start <= max
                    invariant
                        n == args@.len(),
                        a == self.arguments@,
                        av == py_views(args@),
                        state.wf(a.len(), args@.len()),
                        state.options@.map_values(|o: Option<OptionTuple>| opt_tup(o)) == ov,
                        max < args@.len(),
                        state.options@[max as int] is Some,
                        start <= args@.len(),
                        spec_parse_known_args(a, av) == after_loop(a, av, ml),
                        ml == main_loop(a, av, state.view(), start as int, max as int),
                    decreases args@.len() - start,
                {
                    let ghost st = state.view();
                    let next = next_option_index(&state.options, start, max);
                    let mut pos = start;
                    if start != next {
                        let pe = match state.consume_positionals(self, args, start) {
                            Ok(p) => p,
                            Err(e) => {
                                return Err(e);
                            },
                        };
                        if pe > start {
                            start = pe;
                            continue;
                        }
                        pos = pe;
                    }
                    let ghost st1 = state.view();
                    if state.options[pos].is_none() {
                        assert(st1.options[pos as int] is None);
                        let ghost eb = py_views(state.extras@);
                        push_strs(&mut state.extras, args, pos, next);
                        pos = next;
                    } else {
                        assert(st1.options[pos as int] is Some);
                    }
                    let s3 = match state.consume_optional(self, args, pos) {
                        Ok(s) => s,
                        Err(e) => {
                            return Err(e);
                        },
                    };
                    start = s3;
                }
            },
        }
        let stop = match state.consume_positionals(self, args, start) {
            Ok(s) => s,
            Err(e) => {
                return Err(e);
            },
        };
        let ghost st2 = state.view();
        push_strs(&mut state.extras, args, stop, n);
        assert(py_views(state.extras@) =~= st2.extras + av.skip(stop as int));
        let mut missing: Vec<Vec<char>> = Vec::new();
        let mut i: usize = 0;
        assert(char_views(missing@) + missing_required(a, st2.seen, 0) =~= missing_required(a, st2.seen, 0));
        while i < self.arguments.len()
            invariant
                0 <= i <= a.len(),
                a == self.arguments@,
                state.seen@ == st2.seen,
                st2.seen.len() == a.len(),
                missing_required(a, st2.seen, 0) == char_views(missing@) + missing_required(
                    a,
                    st2.seen,
                    i as int,
                ),
            decreases a.len() - i,
        {
            let ghost before = char_views(missing@);
            if self.arguments[i].required && !state.seen[i] {
                missing.push(self.arguments[i].name());
                assert(char_views(missing@) =~= before.push(action_name(a[i as int])));
                assert(before.push(action_name(a[i as int])) + missing_required(a, st2.seen, i + 1)
                    =~= before + (seq![action_name(a[i as int])] + missing_required(a, st2.seen, i + 1)));
            }
            i = i + 1;
        }
        assert(char_views(missing@) + Seq::<Seq<char>>::empty() =~= char_views(missing@));
        if missing.len() > 0 {
            let mut message: Vec<u32> = Vec::new();
            push_str_codes(&mut message, "the following arguments are required: ");
            proof {
                reveal_strlit(", ");
            }
            assert(", "@ =~= seq![',', ' ']);
            let names = join_chars(&missing, ", ");
            let codes = code_points_of(&names);
            push_codes(&mut message, &codes);
            return Err(Stop::Error(PyStr(message)));
        }
        Ok((state.values, state.extras))
    }

    /// `parser.parse_args(args)` for the command line arguments (without
    /// the program name).
    pub fn parse_args(&self, args: &[PyStr]) -> (r: Outcome)
        ensures
            outcome_view(r) == spec_parse_args(self.arguments@, py_views(args@)),
    {
        match self.parse_known_args(args) {
            Err(Stop::Help) => Outcome::Help,
            Err(Stop::Error(message)) => Outcome::Error(message),
            Ok((values, extras)) => {
                if extras.len() == 0 {
                    Outcome::Run(values)
                } else {
                    let ghost ev = py_views(extras@);
                    let mut message: Vec<u32> = Vec::new();
                    push_str_codes(&mut message, "unrecognized arguments:");
                    let ghost head = message@;
                    let mut k: usize = 0;
                    assert(ev.skip(0) =~= ev);
                    while k < extras.len()
                        invariant
                            0 <= k <= extras@.len(),
                            ev == py_views(extras@),
                            head + spaced(ev) == message@ + spaced(ev.skip(k as int)),
                        decreases extras@.len() - k,
                    {
                        assert(ev.skip(k as int)[0] == extras@[k as int]@);
                        assert(ev.skip(k as int).drop_first() =~= ev.skip(k + 1));
                        let ghost before = message@;
                        message.push(32u32);
                        push_codes(&mut message, &extras[k].0);
                        assert(before + (seq![32u32] + extras@[k as int]@ + spaced(ev.skip(k + 1)))
                            =~= message@ + spaced(ev.skip(k + 1)));
                        k = k + 1;
                    }
                    assert(ev.skip(k as int) =~= Seq::<Seq<u32>>::empty());
                    assert(message@ + Seq::<u32>::empty() =~= message@);
                    Outcome::Error(PyStr(message))
                }
            },
        }
    }
}


// ---------------------------------------------------------------------
// The parser of the `fasm` tool.

/// The program name the `fasm` tool gives argparse.
pub const PROG: &'static str = "FASM tool";

/// `a` is the argument with these fields.
pub open spec fn argument_is(
    a: Argument,
    options: Seq<&'static str>,
    dest: &'static str,
    kind: Kind,
    nargs: Nargs,
    required: bool,
    help: &'static str,
) -> bool {
    a.option_strings@ == options && a.dest == dest && a.kind == kind && a.nargs == nargs && a.required
        == required && a.default is None && a.help == help
}

/// The arguments of the `fasm` tool: help, `file`, `--canonical` and
/// `--parser` (a nullable string).
pub open spec fn fasm_tool_arguments(args: Seq<Argument>) -> bool {
    &&& args.len() == 4
    &&& argument_is(
        args[0],
        seq!["-h", "--help"],
        "help",
        Kind::Help,
        Nargs::Zero,
        false,
        "show this help message and exit",
    )
    &&& argument_is(args[1], seq![], "file", Kind::Store, Nargs::One, true, "Filename to process")
    &&& argument_is(
        args[2],
        seq!["--canonical"],
        "canonical",
        Kind::StoreTrue,
        Nargs::Zero,
        false,
        "Return canonical form of FASM.",
    )
    &&& argument_is(
        args[3],
        seq!["--parser"],
        "parser",
        Kind::StoreNullable,
        Nargs::One,
        false,
        "Select FASM parser to use. Default is to choose the best implementation available.",
    )
}

/// The argument parser of the `fasm` tool.
pub fn fasm_tool_parser() -> (r: ArgumentParser)
    ensures
        r.prog@ == PROG@,
        r.description is None,
        fasm_tool_arguments(r.arguments@),
{
    let mut arguments: Vec<Argument> = Vec::new();
    arguments.push(Argument::help());
    arguments.push(Argument::positional("file", "Filename to process"));
    arguments.push(Argument::flag("--canonical", "canonical", "Return canonical form of FASM."));
    arguments.push(
        Argument::option(
            "--parser",
            "parser",
            "Select FASM parser to use. Default is to choose the best implementation available.",
        ).nullable(),
    );
    ArgumentParser { prog: PROG.to_string(), description: None, arguments }
}

/// The parsed command line of the `fasm` tool (argparse's `Namespace`).
#[derive(Clone, PartialEq, Eq, Debug)]
pub struct Namespace {
    /// The `file` positional argument.
    pub file: PyStr,
    /// `--canonical`.
    pub canonical: bool,
    /// `--parser`, after `nullable_string` (an empty value is `None`).
    pub parser: Option<PyStr>,
}

/// The outcome of [`parse_args`].
#[derive(Clone, PartialEq, Eq, Debug)]
pub enum Parsed {
    /// Arguments parsed; run the tool.
    Run(Namespace),
    /// `-h`/`--help`: print [`format_help`] to stdout and exit with 0.
    Help,
    /// A usage error: print [`format_error`] of the message to stderr and
    /// exit with 2.
    Error(PyStr),
}

/// The string value of `dest` in `entries`, if it is one.
pub open spec fn str_value(entries: Seq<(Seq<char>, ValueView)>, dest: Seq<char>) -> Option<Seq<u32>> {
    match lookup_value(entries, dest) {
        ValueView::Str(s) => Some(s),
        _ => None,
    }
}

/// `ns` holds the values `entries` of the `fasm` tool's arguments.
pub open spec fn namespace_is(ns: Namespace, entries: Seq<(Seq<char>, ValueView)>) -> bool {
    &&& ns.file@ == (match str_value(entries, "file"@) {
        Some(s) => s,
        None => Seq::<u32>::empty(),
    })
    &&& ns.canonical == (lookup_value(entries, "canonical"@) == ValueView::Bool(true))
    &&& opt_seq(ns.parser) == str_value(entries, "parser"@)
}

/// The `Namespace` of the parsed values of the `fasm` tool's arguments.
pub fn namespace_of(values: &Values) -> (r: Namespace)
    ensures
        namespace_is(r, values.entries()),
{
    let file = match values.str("file") {
        Some(s) => s.copy(),
        None => PyStr(Vec::new()),
    };
    let canonical = values.flag("canonical");
    let parser_value = match values.str("parser") {
        Some(s) => Some(s.copy()),
        None => None,
    };
    Namespace { file, canonical, parser: parser_value }
}

/// `parsed` is what the `fasm` tool makes of the outcome `o`.
pub open spec fn parsed_is(parsed: Parsed, o: OutcomeView) -> bool {
    match o {
        OutcomeView::Run(entries) => parsed matches Parsed::Run(ns) && namespace_is(ns, entries),
        OutcomeView::Help => parsed is Help,
        OutcomeView::Error(m) => parsed matches Parsed::Error(e) && e@ == m,
    }
}

/// `parser.parse_args(args)` of the `fasm` tool for the command line
/// arguments (without the program name).
pub fn parse_args(args: &[PyStr]) -> (r: Parsed)
    ensures
        exists|a: Seq<Argument>|
            fasm_tool_arguments(a) && #[trigger] parsed_is(r, spec_parse_args(a, py_views(args@))),
{
    let parser = fasm_tool_parser();
    let o = parser.parse_args(args);
    let ghost ov = outcome_view(o);
    let r = match o {
        Outcome::Run(values) => Parsed::Run(namespace_of(&values)),
        Outcome::Help => Parsed::Help,
        Outcome::Error(message) => Parsed::Error(message),
    };
    assert(parsed_is(r, spec_parse_args(parser.arguments@, py_views(args@))));
    r
}

/// `parser.format_usage()` of the `fasm` tool for a terminal of `columns`
/// columns.
pub fn format_usage(columns: i64) -> (r: String)
    ensures
        exists|a: Seq<Argument>|
            fasm_tool_arguments(a) && r@ == #[trigger] spec_format_usage(PROG@, a, columns),
{
    let parser = fasm_tool_parser();
    proof {
        reveal_strlit("FASM tool");
    }
    let r = parser.format_usage(columns);
    assert(r@ == spec_format_usage(PROG@, parser.arguments@, columns));
    r
}

/// `parser.format_help()` of the `fasm` tool for a terminal of `columns`
/// columns.
pub fn format_help(columns: i64) -> (r: String)
    ensures
        exists|a: Seq<Argument>|
            fasm_tool_arguments(a) && r@ == #[trigger] spec_format_help(PROG@, None, a, columns),
{
    let parser = fasm_tool_parser();
    proof {
        reveal_strlit("FASM tool");
    }
    let r = parser.format_help(columns);
    assert(r@ == spec_format_help(PROG@, None, parser.arguments@, columns));
    r
}

/// What `parser.error(message)` of the `fasm` tool writes to stderr: the
/// usage and `FASM tool: error: {message}`, encoded like Python's stderr
/// (`backslashreplace`).
pub fn format_error(message: &PyStr, columns: i64) -> (r: String)
    ensures
        exists|a: Seq<Argument>|
            fasm_tool_arguments(a) && r@ == #[trigger] spec_format_error(PROG@, a, message@, columns),
{
    let parser = fasm_tool_parser();
    proof {
        reveal_strlit("FASM tool");
    }
    let r = parser.format_error(message, columns);
    assert(r@ == spec_format_error(PROG@, parser.arguments@, message@, columns));
    r
}

} // verus!
