//! How the `fasm` tool's parser reads a command line of a file name and
//! `--canonical`, in either order.

use vstd::prelude::*;

use crate::argparse::{
    apply_actions, apply_positionals, arg_pairs, classify, co_loop, defaults_from, fasm_tool_arguments,
    index_of_text, initial_pstate, last_option, lookup_in, lookup_value, main_loop, missing_required,
    namespace_is, next_option, option_pairs, option_pairs_from, partial_from, positional_from, set_value,
    spec_consume_optional, spec_consume_positionals, spec_dashes, spec_match_argument, spec_match_groups,
    spec_match_partial, spec_parse_args, spec_parse_known_args, spec_parse_optional, spec_take_action, try_lead,
    try_middle, try_trail, Argument, Namespace, Nargs, OutcomeView, PState, StopView, Tup, ValueView, DASH,
};
use crate::text::code_points;

verus! {

/// The code points of `--canonical`.
pub open spec fn canonical_flag() -> Seq<u32> {
    code_points("--canonical"@)
}

/// The option tuple of `--canonical` (argument 2 of the `fasm` tool).
pub open spec fn canonical_tuple() -> Tup {
    Tup { action: Some(2), option_string: canonical_flag(), sep: false, explicit_arg: None }
}

proof fn lemma_literals()
    ensures
        canonical_flag().len() == 11,
        canonical_flag()[0] == DASH,
        code_points("--"@) == seq![45u32, 45u32],
        code_points("-h"@).len() == 2,
        code_points("--help"@).len() == 6,
        "file"@ != "canonical"@,
        "file"@ != "parser"@,
        "canonical"@ != "parser"@,
{
    reveal_strlit("--canonical");
    reveal_strlit("--");
    reveal_strlit("-h");
    reveal_strlit("--help");
    reveal_strlit("file");
    reveal_strlit("canonical");
    reveal_strlit("parser");
    assert(code_points("--"@) =~= seq![45u32, 45u32]);
    assert("file"@.len() != "canonical"@.len());
    assert("canonical"@.len() != "parser"@.len());
    assert("file"@[0] != "parser"@[0]);
}

proof fn lemma_option_pairs(args: Seq<Argument>)
    requires
        fasm_tool_arguments(args),
    ensures
        option_pairs(args) == seq![("-h", 0int), ("--help", 0int), ("--canonical", 2int), ("--parser", 3int)],
{
    assert(arg_pairs(args[0], 0) =~= seq![("-h", 0int), ("--help", 0int)]);
    assert(arg_pairs(args[1], 1) =~= Seq::<(&'static str, int)>::empty());
    assert(arg_pairs(args[2], 2) =~= seq![("--canonical", 2int)]);
    assert(arg_pairs(args[3], 3) =~= seq![("--parser", 3int)]);
    assert(option_pairs_from(args, 4) =~= Seq::<(&'static str, int)>::empty());
    assert(option_pairs_from(args, 3) =~= seq![("--parser", 3int)]);
    assert(option_pairs_from(args, 2) =~= seq![("--canonical", 2int), ("--parser", 3int)]);
    assert(option_pairs_from(args, 1) =~= seq![("--canonical", 2int), ("--parser", 3int)]);
    assert(option_pairs_from(args, 0) =~= seq![
        ("-h", 0int),
        ("--help", 0int),
        ("--canonical", 2int),
        ("--parser", 3int),
    ]);
}

proof fn lemma_parse_optional(args: Seq<Argument>, f: Seq<u32>)
    requires
        fasm_tool_arguments(args),
        f.len() == 0 || f[0] != DASH,
    ensures
        spec_parse_optional(args, canonical_flag()) == Ok::<Option<Tup>, StopView>(
            Some(canonical_tuple()),
        ),
        spec_parse_optional(args, f) == Ok::<Option<Tup>, StopView>(None),
        f != code_points("--"@),
        canonical_flag() != code_points("--"@),
{
    lemma_literals();
    lemma_option_pairs(args);
    let pairs = option_pairs(args);
    let c = canonical_flag();
    assert(code_points(pairs[0].0@) != c);
    assert(code_points(pairs[1].0@) != c);
    assert(pairs.drop_first().drop_first()[0] == ("--canonical", 2int));
    assert(lookup_in(pairs.drop_first().drop_first(), c) == Some(2int));
    assert(pairs.drop_first()[0] == pairs[1]);
    assert(lookup_in(pairs.drop_first(), c) == Some(2int));
    assert(lookup_in(pairs, c) == Some(2int));
    assert(c.len() != code_points("--"@).len());
}

/// The argument classes and option tuples of `[f, --canonical]` and
/// `[--canonical, f]`.
proof fn lemma_classify(args: Seq<Argument>, f: Seq<u32>)
    requires
        fasm_tool_arguments(args),
        f.len() == 0 || f[0] != DASH,
    ensures
        classify(args, seq![f, canonical_flag()], 0) == Ok::<
            (Seq<u8>, Seq<Option<Tup>>),
            StopView,
        >((seq![65u8, 79u8], seq![None, Some(canonical_tuple())])),
        classify(args, seq![canonical_flag(), f], 0) == Ok::<
            (Seq<u8>, Seq<Option<Tup>>),
            StopView,
        >((seq![79u8, 65u8], seq![Some(canonical_tuple()), None])),
{
    lemma_parse_optional(args, f);
    let c = canonical_flag();
    let a1 = seq![f, c];
    let a2 = seq![c, f];
    assert(classify(args, a1, 2) == Ok::<(Seq<u8>, Seq<Option<Tup>>), StopView>(
        (seq![], seq![]),
    ));
    assert(a1[1] == c);
    let r11 = classify(args, a1, 1);
    assert(r11 == Ok::<(Seq<u8>, Seq<Option<Tup>>), StopView>(
        (seq![79u8], seq![Some(canonical_tuple())]),
    )) by {
        assert(seq![79u8] + Seq::<u8>::empty() =~= seq![79u8]);
        assert(seq![Some(canonical_tuple())] + Seq::<Option<Tup>>::empty() =~= seq![Some(canonical_tuple())]);
    }
    assert(seq![65u8] + seq![79u8] =~= seq![65u8, 79u8]);
    assert(seq![None] + seq![Some(canonical_tuple())] =~= seq![None, Some(canonical_tuple())]);
    assert(classify(args, a2, 2) == Ok::<(Seq<u8>, Seq<Option<Tup>>), StopView>(
        (seq![], seq![]),
    ));
    assert(a2[1] == f);
    assert(classify(args, a2, 1) == Ok::<(Seq<u8>, Seq<Option<Tup>>), StopView>(
        (seq![65u8], seq![None]),
    )) by {
        assert(seq![65u8] + Seq::<u8>::empty() =~= seq![65u8]);
        assert(seq![None::<Tup>] + Seq::<Option<Tup>>::empty() =~= seq![None::<Tup>]);
    }
    assert(seq![79u8] + seq![65u8] =~= seq![79u8, 65u8]);
    assert(seq![Some(canonical_tuple())] + seq![None] =~= seq![Some(canonical_tuple()), None]);
}

/// The values before parsing: every argument but help at its default.
pub open spec fn default_values() -> Seq<(Seq<char>, ValueView)> {
    seq![("file"@, ValueView::Unset), ("canonical"@, ValueView::Bool(false)), ("parser"@, ValueView::Unset)]
}

/// The values of a run on the file `f` with `--canonical`.
pub open spec fn canonical_run_values(f: Seq<u32>) -> Seq<(Seq<char>, ValueView)> {
    seq![("file"@, ValueView::Str(f)), ("canonical"@, ValueView::Bool(true)), ("parser"@, ValueView::Unset)]
}

proof fn lemma_initial(args: Seq<Argument>)
    requires
        fasm_tool_arguments(args),
    ensures
        positional_from(args, 0) == seq![1int],
        defaults_from(args, 0, seq![]) == default_values(),
{
    lemma_literals();
    assert(positional_from(args, 4) =~= Seq::<int>::empty());
    assert(positional_from(args, 3) =~= Seq::<int>::empty());
    assert(positional_from(args, 2) =~= Seq::<int>::empty());
    assert(positional_from(args, 1) =~= seq![1int]);
    let e0 = Seq::<(Seq<char>, ValueView)>::empty();
    let e1 = seq![("file"@, ValueView::Unset)];
    let e2 = seq![("file"@, ValueView::Unset), ("canonical"@, ValueView::Bool(false))];
    assert(set_value(e0, "file"@, ValueView::Unset) =~= e1);
    assert(e1.drop_first() =~= e0);
    assert(set_value(e0, "canonical"@, ValueView::Bool(false)) =~= seq![("canonical"@, ValueView::Bool(false))]);
    assert(set_value(e1, "canonical"@, ValueView::Bool(false)) =~= e2);
    assert(e2.drop_first() =~= seq![("canonical"@, ValueView::Bool(false))]);
    assert(seq![("canonical"@, ValueView::Bool(false))].drop_first() =~= e0);
    assert(set_value(e0, "parser"@, ValueView::Unset) =~= seq![("parser"@, ValueView::Unset)]);
    assert(set_value(seq![("canonical"@, ValueView::Bool(false))], "parser"@, ValueView::Unset) =~= seq![
        ("canonical"@, ValueView::Bool(false)),
        ("parser"@, ValueView::Unset),
    ]);
    assert(set_value(e2, "parser"@, ValueView::Unset) =~= default_values());
    assert(defaults_from(args, 4, default_values()) == default_values());
    assert(defaults_from(args, 3, e2) == default_values());
    assert(defaults_from(args, 2, e1) == default_values());
    assert(defaults_from(args, 1, e0) == default_values());
}

/// The file positional (one argument string) takes the first `A` of `p`.
proof fn lemma_match_file(args: Seq<Argument>, p: Seq<u8>)
    requires
        fasm_tool_arguments(args),
        p == seq![65u8, 79u8] || p == seq![65u8],
    ensures
        spec_match_partial(args, seq![1int], p) == seq![1int],
        spec_match_partial(args, Seq::<int>::empty(), p) == Seq::<int>::empty(),
{
    let g = seq![1int].take(1).map_values(|q: int| args[q].nargs);
    assert(g =~= seq![Nargs::One]);
    assert(spec_dashes(p, 0) == 0);
    assert(spec_dashes(p, 1) == 0);
    assert(spec_match_groups(g, 1, p, 1) == Some(Seq::<int>::empty()));
    assert(seq![1int] + Seq::<int>::empty() =~= seq![1int]);
    assert(try_trail(g, 0, p, 0, 1, 0) == Some(seq![1int]));
    assert(try_middle(g, 0, p, 0, 0, 0) == Some(seq![1int]));
    assert(try_lead(g, 0, p, 0, 0) == Some(seq![1int]));
    assert(spec_match_groups(g, 0, p, 0) == Some(seq![1int]));
    assert(partial_from(args, seq![1int], p, 1) == seq![1int]);
}

/// `set_value` on the defaults: setting the file and `--canonical`, in
/// either order, gives the values of a run.
proof fn lemma_set_both(f: Seq<u32>)
    ensures
        set_value(set_value(default_values(), "file"@, ValueView::Str(f)), "canonical"@, ValueView::Bool(true))
            == canonical_run_values(f),
        set_value(set_value(default_values(), "canonical"@, ValueView::Bool(true)), "file"@, ValueView::Str(f))
            == canonical_run_values(f),
{
    lemma_literals();
    let d = default_values();
    let tail = seq![("canonical"@, ValueView::Bool(true)), ("parser"@, ValueView::Unset)];
    assert(d.drop_first()[0].0 == "canonical"@);
    assert(d.drop_first().drop_first() =~= seq![("parser"@, ValueView::Unset)]);
    assert(set_value(d.drop_first(), "canonical"@, ValueView::Bool(true)) =~= tail);
    let with_file = set_value(d, "file"@, ValueView::Str(f));
    assert(with_file =~= seq![
        ("file"@, ValueView::Str(f)),
        ("canonical"@, ValueView::Bool(false)),
        ("parser"@, ValueView::Unset),
    ]);
    assert(with_file.drop_first() =~= d.drop_first());
    assert(set_value(with_file, "canonical"@, ValueView::Bool(true)) =~= canonical_run_values(f));
    let with_flag = set_value(d, "canonical"@, ValueView::Bool(true));
    assert(with_flag =~= canonical_run_values(Seq::empty()).update(0, ("file"@, ValueView::Unset)));
    assert(set_value(with_flag, "file"@, ValueView::Str(f)) =~= canonical_run_values(f));
}

/// The `fasm` tool's parser on `[f, --canonical]`.
proof fn lemma_file_first(args: Seq<Argument>, f: Seq<u32>)
    requires
        fasm_tool_arguments(args),
        f.len() == 0 || f[0] != DASH,
    ensures
        spec_parse_known_args(args, seq![f, canonical_flag()]) == Ok::<
            (Seq<(Seq<char>, ValueView)>, Seq<Seq<u32>>),
            StopView,
        >((canonical_run_values(f), Seq::<Seq<u32>>::empty())),
{
    lemma_classify(args, f);
    lemma_parse_optional(args, f);
    lemma_initial(args);
    lemma_set_both(f);
    let c = canonical_flag();
    let argv = seq![f, c];
    let pattern = seq![65u8, 79u8];
    let options = seq![None, Some(canonical_tuple())];
    lemma_match_file(args, pattern);
    let st0 = initial_pstate(args, pattern, options);
    assert(last_option(options, 2) == Some(1int));
    assert(next_option(options, 1) == 1);
    assert(next_option(options, 0) == 1);
    // The file.
    assert(pattern.skip(0) =~= pattern);
    let stp = PState { positionals: st0.positionals.skip(1), ..st0 };
    assert(argv.subrange(0, 1) =~= seq![f]);
    assert(index_of_text(seq![f], code_points("--"@)) is None) by {
        assert(index_of_text(seq![f].drop_first(), code_points("--"@)) is None);
    }
    let with_file = set_value(default_values(), "file"@, ValueView::Str(f));
    let st1 = PState { seen: stp.seen.update(1, true), values: with_file, ..stp };
    assert(spec_take_action(args, stp, 1, seq![f]) == Ok::<PState, StopView>(st1));
    assert(seq![1int].take(1) =~= seq![1int]);
    assert(seq![1int].drop_first() =~= Seq::<int>::empty());
    assert(apply_positionals(args, argv, st1, Seq::<int>::empty(), Seq::<int>::empty(), 1) == Ok::<
        (PState, int),
        StopView,
    >((st1, 1)));
    assert(apply_positionals(args, argv, stp, seq![1int], seq![1int], 0) == Ok::<(PState, int), StopView>(
        (st1, 1),
    ));
    assert(spec_consume_positionals(args, argv, st0, 0) == Ok::<(PState, int), StopView>((st1, 1)));
    // `--canonical`.
    assert(spec_match_argument(args, 2, pattern.skip(2)) == Ok::<int, StopView>(0));
    assert(argv.subrange(2, 2) =~= Seq::<Seq<u32>>::empty());
    let tuples = seq![(2int, Seq::<Seq<u32>>::empty())];
    assert(co_loop(args, argv, pattern, 1, Some(2int), c, false, None, seq![]) == Ok::<
        (Option<Seq<u32>>, int, Seq<(int, Seq<Seq<u32>>)>),
        StopView,
    >((None, 2, tuples))) by {
        assert(Seq::<(int, Seq<Seq<u32>>)>::empty().push((2int, argv.subrange(2, 2))) =~= tuples);
    }
    let st3 = PState {
        seen: st1.seen.update(2, true),
        values: canonical_run_values(f),
        ..st1
    };
    assert(spec_take_action(args, st1, 2, Seq::empty()) == Ok::<PState, StopView>(st3));
    assert(tuples.drop_first() =~= Seq::<(int, Seq<Seq<u32>>)>::empty());
    assert(tuples[0] == (2int, Seq::<Seq<u32>>::empty()));
    assert(apply_actions(args, st3, tuples.drop_first()) == Ok::<PState, StopView>(st3));
    assert(apply_actions(args, st1, tuples) == Ok::<PState, StopView>(st3));
    assert(spec_consume_optional(args, argv, st1, 1) == Ok::<(PState, int), StopView>((st3, 2)));
    assert(main_loop(args, argv, st3, 2, 1) == Ok::<(PState, int), StopView>((st3, 2)));
    assert(main_loop(args, argv, st1, 1, 1) == Ok::<(PState, int), StopView>((st3, 2)));
    assert(main_loop(args, argv, st0, 0, 1) == Ok::<(PState, int), StopView>((st3, 2)));
    // After the loop.
    assert(st3.positionals =~= Seq::<int>::empty());
    assert(st3.positionals.take(0) =~= Seq::<int>::empty());
    let st4 = PState { positionals: st3.positionals.skip(0), ..st3 };
    assert(spec_consume_positionals(args, argv, st3, 2) == Ok::<(PState, int), StopView>((st4, 2)));
    assert(st4.seen[1]);
    assert(missing_required(args, st4.seen, 4) =~= Seq::<Seq<char>>::empty());
    assert(missing_required(args, st4.seen, 3) =~= Seq::<Seq<char>>::empty());
    assert(missing_required(args, st4.seen, 2) =~= Seq::<Seq<char>>::empty());
    assert(missing_required(args, st4.seen, 1) =~= Seq::<Seq<char>>::empty());
    assert(missing_required(args, st4.seen, 0) =~= Seq::<Seq<char>>::empty());
    assert(argv.skip(2) =~= Seq::<Seq<u32>>::empty());
    assert(st4.extras + argv.skip(2) =~= Seq::<Seq<u32>>::empty());
}

/// The `fasm` tool's parser on `[--canonical, f]`.
proof fn lemma_flag_first(args: Seq<Argument>, f: Seq<u32>)
    requires
        fasm_tool_arguments(args),
        f.len() == 0 || f[0] != DASH,
    ensures
        spec_parse_known_args(args, seq![canonical_flag(), f]) == Ok::<
            (Seq<(Seq<char>, ValueView)>, Seq<Seq<u32>>),
            StopView,
        >((canonical_run_values(f), Seq::<Seq<u32>>::empty())),
{
    lemma_classify(args, f);
    lemma_parse_optional(args, f);
    lemma_initial(args);
    lemma_set_both(f);
    let c = canonical_flag();
    let argv = seq![c, f];
    let pattern = seq![79u8, 65u8];
    let options = seq![Some(canonical_tuple()), None];
    let st0 = initial_pstate(args, pattern, options);
    assert(last_option(options, 1) == Some(0int));
    assert(last_option(options, 2) == Some(0int));
    assert(next_option(options, 0) == 0);
    // `--canonical`.
    assert(spec_match_argument(args, 2, pattern.skip(1)) == Ok::<int, StopView>(0));
    assert(argv.subrange(1, 1) =~= Seq::<Seq<u32>>::empty());
    let tuples = seq![(2int, Seq::<Seq<u32>>::empty())];
    assert(co_loop(args, argv, pattern, 0, Some(2int), c, false, None, seq![]) == Ok::<
        (Option<Seq<u32>>, int, Seq<(int, Seq<Seq<u32>>)>),
        StopView,
    >((None, 1, tuples))) by {
        assert(Seq::<(int, Seq<Seq<u32>>)>::empty().push((2int, argv.subrange(1, 1))) =~= tuples);
    }
    let with_flag = set_value(default_values(), "canonical"@, ValueView::Bool(true));
    let st1 = PState { seen: st0.seen.update(2, true), values: with_flag, ..st0 };
    assert(spec_take_action(args, st0, 2, Seq::empty()) == Ok::<PState, StopView>(st1));
    assert(tuples.drop_first() =~= Seq::<(int, Seq<Seq<u32>>)>::empty());
    assert(tuples[0] == (2int, Seq::<Seq<u32>>::empty()));
    assert(apply_actions(args, st1, tuples.drop_first()) == Ok::<PState, StopView>(st1));
    assert(apply_actions(args, st0, tuples) == Ok::<PState, StopView>(st1));
    assert(spec_consume_optional(args, argv, st0, 0) == Ok::<(PState, int), StopView>((st1, 1)));
    assert(main_loop(args, argv, st1, 1, 0) == Ok::<(PState, int), StopView>((st1, 1)));
    assert(main_loop(args, argv, st0, 0, 0) == Ok::<(PState, int), StopView>((st1, 1)));
    // The file, after the loop.
    lemma_match_file(args, seq![65u8]);
    assert(pattern.skip(1) =~= seq![65u8]);
    let stp = PState { positionals: st1.positionals.skip(1), ..st1 };
    assert(argv.subrange(1, 2) =~= seq![f]);
    assert(index_of_text(seq![f], code_points("--"@)) is None) by {
        assert(index_of_text(seq![f].drop_first(), code_points("--"@)) is None);
    }
    let st2 = PState { seen: stp.seen.update(1, true), values: canonical_run_values(f), ..stp };
    assert(spec_take_action(args, stp, 1, seq![f]) == Ok::<PState, StopView>(st2));
    assert(seq![1int].take(1) =~= seq![1int]);
    assert(seq![1int].drop_first() =~= Seq::<int>::empty());
    assert(apply_positionals(args, argv, st2, Seq::<int>::empty(), Seq::<int>::empty(), 2) == Ok::<
        (PState, int),
        StopView,
    >((st2, 2)));
    assert(apply_positionals(args, argv, stp, seq![1int], seq![1int], 1) == Ok::<(PState, int), StopView>(
        (st2, 2),
    ));
    assert(spec_consume_positionals(args, argv, st1, 1) == Ok::<(PState, int), StopView>((st2, 2)));
    assert(st2.seen[1]);
    assert(missing_required(args, st2.seen, 4) =~= Seq::<Seq<char>>::empty());
    assert(missing_required(args, st2.seen, 3) =~= Seq::<Seq<char>>::empty());
    assert(missing_required(args, st2.seen, 2) =~= Seq::<Seq<char>>::empty());
    assert(missing_required(args, st2.seen, 1) =~= Seq::<Seq<char>>::empty());
    assert(missing_required(args, st2.seen, 0) =~= Seq::<Seq<char>>::empty());
    assert(argv.skip(2) =~= Seq::<Seq<u32>>::empty());
    assert(st2.extras + argv.skip(2) =~= Seq::<Seq<u32>>::empty());
}

/// The place of `--canonical` on the `fasm` tool's command line does not
/// matter: before or after a file name that does not start with `-`
/// (an empty one too), the tool runs on that file, with `canonical` set
/// and no `--parser`.
pub proof fn lemma_canonical_before_or_after_the_file(args: Seq<Argument>, f: Seq<u32>)
    requires
        fasm_tool_arguments(args),
        f.len() == 0 || f[0] != DASH,
    ensures
        spec_parse_args(args, seq![f, canonical_flag()]) == spec_parse_args(args, seq![canonical_flag(), f]),
        spec_parse_args(args, seq![f, canonical_flag()]) == OutcomeView::Run(canonical_run_values(f)),
        forall|ns: Namespace| #[trigger]
            namespace_is(ns, canonical_run_values(f)) <==> (ns.file@ == f && ns.canonical && ns.parser is None),
{
    lemma_file_first(args, f);
    lemma_flag_first(args, f);
    lemma_literals();
    let v = canonical_run_values(f);
    assert(v.drop_first()[0].0 == "canonical"@);
    assert(v.drop_first().drop_first()[0].0 == "parser"@);
    assert(lookup_value(v, "file"@) == ValueView::Str(f));
    assert(lookup_value(v.drop_first(), "canonical"@) == ValueView::Bool(true));
    assert(lookup_value(v, "canonical"@) == ValueView::Bool(true));
    assert(lookup_value(v.drop_first().drop_first(), "parser"@) == ValueView::Unset);
    assert(lookup_value(v.drop_first(), "parser"@) == ValueView::Unset);
    assert(lookup_value(v, "parser"@) == ValueView::Unset);
}

} // verus!
