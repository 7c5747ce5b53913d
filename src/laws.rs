//! Properties of the dispatch rules, stated over the specifications that the
//! classifier and the value source meet.

use vstd::prelude::*;
use crate::parser::{ArgumentParser, cluster_walk, resumes, start_of, walk};
use crate::source::{ErrorView, SourceView, take_step, unused_inline};
use crate::token::{
    ClassView, OriginView, ShortCallView, after_eq, class_of, cluster_calls, eq_index, short_call_at,
    is_positional_token, lemma_first_eq_unique, looks_like_flag, no_eq,
};

verus! {

/// A token that does not start with `-` is positional, so it goes to the
/// argument handler and never to a flag handler.
pub proof fn law_plain_tokens_are_positional(toks: Seq<Seq<char>>)
    requires
        forall|i: int| 0 <= i < toks.len() ==> !looks_like_flag(#[trigger] toks[i]),
    ensures
        forall|i: int|
            0 <= i < toks.len() ==> is_positional_token(#[trigger] toks[i]) && class_of(toks[i])
                == ClassView::Positional,
{
}

/// `--name=value` is the long flag `name` with inline value `value`; asking its
/// source yields `value`, and the handler's return fails with an unused inline
/// value exactly when it never asked.
pub proof fn law_long_inline_value(name: Seq<char>, value: Seq<char>, v: SourceView)
    requires
        no_eq(name),
        v.origin == OriginView::Inline(value),
    ensures
        class_of(seq!['-', '-'] + name + seq!['='] + value) == (ClassView::Long {
            name,
            inline: Some(value),
        }),
        take_step(v).0 == Ok::<Seq<char>, ErrorView>(value),
        take_step(v).1.taken,
        take_step(v).1.pos == v.pos,
        unused_inline(v, name) is Ok <==> v.taken,
        !v.taken ==> unused_inline(v, name) == Err::<(), ErrorView>(
            ErrorView::UnusedInlineValue { flag: name, value },
        ),
{
    let t = seq!['-', '-'] + name + seq!['='] + value;
    let rest = t.skip(2);
    assert(rest =~= name + seq!['='] + value);
    assert(rest.take(name.len() as int) =~= name);
    assert(rest[name.len() as int] == '=');
    lemma_first_eq_unique(rest, name.len() as int);
    assert(after_eq(rest) =~= value);
}

/// `--name` followed by a token that does not look like a flag: asking the
/// source yields that token and consumes it, so the walk resumes after it.
pub proof fn law_long_takes_next_token(name: Seq<char>, v: SourceView)
    requires
        no_eq(name),
        v.origin == OriginView::Stream,
        0 <= v.pos < v.tokens.len(),
        !looks_like_flag(v.tokens[v.pos]),
    ensures
        class_of(seq!['-', '-'] + name) == (ClassView::Long { name, inline: None }),
        take_step(v).0 == Ok::<Seq<char>, ErrorView>(v.tokens[v.pos]),
        take_step(v).1.rest() == v.rest().drop_first(),
{
    assert((seq!['-', '-'] + name).skip(2) =~= name);
    assert(take_step(v).1.rest() =~= v.rest().drop_first());
}

/// Asking for the next token when none is left fails with a missing value.
pub proof fn law_missing_value(v: SourceView)
    requires
        v.origin == OriginView::Stream,
        v.pos >= v.tokens.len(),
    ensures
        take_step(v).0 == Err::<Seq<char>, ErrorView>(ErrorView::MissingValue),
        take_step(v).1 == v,
{
}

/// A cluster `-s` without `=` dispatches each character of `s` in order; all
/// but the last get a source that refuses with `CannotTakeValueMidCluster`,
/// and the last one draws from the stream.
pub proof fn law_plain_cluster(s: Seq<char>)
    requires
        s.len() >= 1,
        s[0] != '-',
        no_eq(s),
    ensures
        class_of(seq!['-'] + s) == (ClassView::Short { calls: cluster_calls(s) }),
        cluster_calls(s).len() == s.len(),
        forall|i: int|
            0 <= i < s.len() - 1 ==> #[trigger] cluster_calls(s)[i] == (ShortCallView {
                flag: s[i],
                is_last: false,
                origin: OriginView::MidCluster(s[i]),
            }),
        cluster_calls(s)[s.len() - 1] == (ShortCallView {
            flag: s[s.len() - 1],
            is_last: true,
            origin: OriginView::Stream,
        }),
        forall|v: SourceView|
            v.origin is MidCluster ==> #[trigger] take_step(v) == (
            Err::<Seq<char>, ErrorView>(
                ErrorView::CannotTakeValueMidCluster(v.origin->MidCluster_0),
            ),
            v,
        ),
{
    let t = seq!['-'] + s;
    assert(t.skip(1) =~= s);
    assert(no_eq(s.skip(1)));
    reveal(eq_index);
    let end = eq_index(s.skip(1));
    assert(end == s.len() - 1);
    assert(cluster_calls(s).len() == s.len());
    assert forall|i: int| 0 <= i < s.len() implies #[trigger] cluster_calls(s)[i] == (
    if i + 1 < s.len() {
        ShortCallView { flag: s[i], is_last: false, origin: OriginView::MidCluster(s[i]) }
    } else {
        ShortCallView { flag: s[i], is_last: true, origin: OriginView::Stream }
    }) by {
        assert(cluster_calls(s)[i] == short_call_at(s, i, end));
    }
}

/// A cluster `-p=value`, with no `=` in `p`: the characters of `p` are
/// dispatched in order, all but the last with a source that refuses, and the
/// last one, right before the `=`, receives `value` inline.
pub proof fn law_cluster_inline_value(p: Seq<char>, value: Seq<char>)
    requires
        p.len() >= 1,
        p[0] != '-',
        no_eq(p),
    ensures
        class_of(seq!['-'] + p + seq!['='] + value) == (ClassView::Short {
            calls: cluster_calls(p + seq!['='] + value),
        }),
        cluster_calls(p + seq!['='] + value).len() == p.len(),
        forall|i: int|
            0 <= i < p.len() - 1 ==> #[trigger] cluster_calls(p + seq!['='] + value)[i] == (
            ShortCallView { flag: p[i], is_last: false, origin: OriginView::MidCluster(p[i]) }),
        cluster_calls(p + seq!['='] + value)[p.len() - 1] == (ShortCallView {
            flag: p[p.len() - 1],
            is_last: true,
            origin: OriginView::Inline(value),
        }),
{
    let t = seq!['-'] + p + seq!['='] + value;
    let s = p + seq!['='] + value;
    assert(t.skip(1) =~= s);
    assert(s.take(p.len() as int) =~= p);
    assert(s[p.len() as int] == '=');
    lemma_first_eq_unique(s, p.len() as int);
    assert(after_eq(s) =~= value);
    let s1 = s.skip(1);
    assert(s1[p.len() - 1] == '=');
    assert(s1.take(p.len() - 1) =~= p.skip(1));
    lemma_first_eq_unique(s1, p.len() - 1);
    assert(!no_eq(s1));
    assert(cluster_calls(s).len() == p.len());
    assert forall|i: int| 0 <= i < p.len() implies #[trigger] cluster_calls(s)[i] == (
    if i + 1 < p.len() {
        ShortCallView { flag: p[i], is_last: false, origin: OriginView::MidCluster(p[i]) }
    } else {
        ShortCallView { flag: p[i], is_last: true, origin: OriginView::Inline(value) }
    }) by {
        assert(s[i] == p[i]);
        assert(cluster_calls(s)[i] == short_call_at(s, i, p.len() - 1));
    }
}

/// The handler values after `argument` is called on each token of `v` from
/// `v.pos` on, in order, each with a fresh source that draws from the stream.
pub open spec fn arguments_from<P: ArgumentParser>(p: P, v: SourceView) -> P
    decreases v.tokens.len() - v.pos,
{
    if v.pos < 0 || v.pos >= v.tokens.len() {
        p
    } else {
        let armed = SourceView { pos: v.pos + 1, origin: OriginView::Stream, taken: false, ..v };
        arguments_from(p.argument_step(v.tokens[v.pos], armed).0, armed)
    }
}

/// Where no token starts with `-` and the argument handler answers `false`
/// without drawing values, a parse calls `argument` once per token, in order,
/// and no other handler, and succeeds.
pub proof fn law_plain_tokens_walk<P: ArgumentParser>(p: P, v: SourceView)
    requires
        0 <= v.pos <= v.tokens.len(),
        forall|i: int| v.pos <= i < v.tokens.len() ==> !looks_like_flag(#[trigger] v.tokens[i]),
        forall|q: P, a: Seq<char>, w: SourceView|
            (#[trigger] q.argument_step(a, w)).1 == Ok::<bool, ErrorView>(false)
                && q.argument_step(a, w).2 == w,
    ensures
        walk(p, v) == Ok::<P, ErrorView>(arguments_from(p, v)),
    decreases v.tokens.len() - v.pos,
{
    if v.pos < v.tokens.len() {
        let armed = SourceView { pos: v.pos + 1, origin: OriginView::Stream, taken: false, ..v };
        assert(class_of(v.tokens[v.pos]) == ClassView::Positional);
        law_plain_tokens_walk(p.argument_step(v.tokens[v.pos], armed).0, armed);
    }
}

/// A handler error ends the parse with that error: for a positional token, a
/// failing `argument`; for a long flag, a failing `long`.
pub proof fn law_handler_error_ends_walk<P: ArgumentParser>(p: P, v: SourceView)
    requires
        0 <= v.pos < v.tokens.len(),
    ensures
        ({
            let read = SourceView { pos: v.pos + 1, ..v };
            let armed = SourceView { origin: OriginView::Stream, taken: false, ..read };
            class_of(v.tokens[v.pos]) is Positional && p.argument_step(v.tokens[v.pos], armed).1 is Err
                ==> walk(p, v) == Err::<P, ErrorView>(
                p.argument_step(v.tokens[v.pos], armed).1->Err_0,
            )
        }),
        ({
            let read = SourceView { pos: v.pos + 1, ..v };
            let armed = SourceView { origin: OriginView::Stream, taken: false, ..read };
            class_of(v.tokens[v.pos]) == (ClassView::Long {
                name: class_of(v.tokens[v.pos])->name,
                inline: None,
            }) && p.long_step(class_of(v.tokens[v.pos])->name, armed).1 is Err ==> walk(p, v)
                == Err::<P, ErrorView>(
                p.long_step(class_of(v.tokens[v.pos])->name, armed).1->Err_0,
            )
        }),
{
}

/// `--name=value`: `long` gets `name` with a source holding `value`; where it
/// succeeds without taking the value the parse fails with an unused inline
/// value, and where it took it the parse goes on from its source.
pub proof fn law_long_inline_walk<P: ArgumentParser>(
    p: P,
    v: SourceView,
    name: Seq<char>,
    value: Seq<char>,
)
    requires
        0 <= v.pos < v.tokens.len(),
        v.tokens[v.pos] == seq!['-', '-'] + name + seq!['='] + value,
        no_eq(name),
    ensures
        ({
            let armed = SourceView {
                pos: v.pos + 1,
                origin: OriginView::Inline(value),
                taken: false,
                ..v
            };
            let (p1, r, after) = p.long_step(name, armed);
            &&& r is Ok && !after.taken && after.follows(armed) ==> walk(p, v) == Err::<P, ErrorView>(
                ErrorView::UnusedInlineValue { flag: name, value },
            )
            &&& r is Ok && after.taken && after.follows(armed) ==> walk(p, v) == walk(p1, after)
        }),
{
    let w = SourceView { tokens: seq![], pos: 0, origin: OriginView::Inline(value), taken: false };
    law_long_inline_value(name, value, w);
    let read = SourceView { pos: v.pos + 1, ..v };
    let armed = SourceView { origin: OriginView::Inline(value), taken: false, ..read };
    assert(class_of(v.tokens[v.pos]) == (ClassView::Long { name, inline: Some(value) }));
    let (p1, r, after) = p.long_step(name, armed);
    if r is Ok && after.follows(armed) {
        assert(resumes(after, read));
    }
}

/// `--name` followed by other tokens, with a `long` that asked its source once
/// and succeeded: a value it got is consumed and the parse goes on after it; a
/// token refused as a value (one that looks like a flag) stays, and is
/// dispatched next.
pub proof fn law_long_value_consumed_walk<P: ArgumentParser>(p: P, v: SourceView, name: Seq<char>)
    requires
        0 <= v.pos < v.tokens.len() - 1,
        v.tokens[v.pos] == seq!['-', '-'] + name,
        no_eq(name),
    ensures
        ({
            let armed = SourceView { pos: v.pos + 1, origin: OriginView::Stream, taken: false, ..v };
            let (p1, r, after) = p.long_step(name, armed);
            &&& r is Ok && after == take_step(armed).1 ==> walk(p, v) == walk(p1, after)
            &&& take_step(armed).0 is Ok <==> !looks_like_flag(v.tokens[v.pos + 1])
            &&& take_step(armed).0 is Ok ==> take_step(armed).1.pos == v.pos + 2
            &&& take_step(armed).0 is Err ==> take_step(armed).1.pos == v.pos + 1
        }),
{
    assert((seq!['-', '-'] + name).skip(2) =~= name);
}

/// `--name` as the last token, with a `long` that fails with what its source
/// answered: the parse fails with a missing value.
pub proof fn law_long_missing_value_walk<P: ArgumentParser>(p: P, name: Seq<char>)
    requires
        no_eq(name),
    ensures
        ({
            let v = start_of(seq![seq!['-', '-'] + name]);
            let armed = SourceView { pos: 1, origin: OriginView::Stream, taken: false, ..v };
            p.long_step(name, armed).1 == Err::<(), ErrorView>(take_step(armed).0->Err_0)
                ==> walk(p, v) == Err::<P, ErrorView>(ErrorView::MissingValue)
        }),
{
    assert((seq!['-', '-'] + name).skip(2) =~= name);
}

/// A short cluster token is dispatched as its calls, in order, through
/// `cluster_walk`; what follows resumes where the last call left the source.
pub proof fn law_cluster_walk<P: ArgumentParser>(p: P, v: SourceView)
    requires
        0 <= v.pos < v.tokens.len(),
        class_of(v.tokens[v.pos]) is Short,
    ensures
        ({
            let read = SourceView { pos: v.pos + 1, ..v };
            let calls = cluster_calls(v.tokens[v.pos].skip(1));
            &&& cluster_walk(p, calls, read) is Err ==> walk(p, v) == Err::<P, ErrorView>(
                cluster_walk(p, calls, read)->Err_0,
            )
            &&& cluster_walk(p, calls, read) is Ok && resumes(cluster_walk(p, calls, read)->Ok_0.1, read)
                ==> walk(p, v) == walk(cluster_walk(p, calls, read)->Ok_0.0, cluster_walk(p, calls, read)->Ok_0.1)
        }),
{
}

/// A positional token whose `argument` answers `true` hands every token not
/// consumed to `subcommand`, once, and ends the parse with its outcome.
pub proof fn law_subcommand_ends_walk<P: ArgumentParser>(p: P, v: SourceView)
    requires
        0 <= v.pos < v.tokens.len(),
        !looks_like_flag(v.tokens[v.pos]),
    ensures
        ({
            let tok = v.tokens[v.pos];
            let armed = SourceView { pos: v.pos + 1, origin: OriginView::Stream, taken: false, ..v };
            let (p1, r, after) = p.argument_step(tok, armed);
            let (p2, r2) = p1.subcommand_step(tok, after.rest());
            r == Ok::<bool, ErrorView>(true) ==> walk(p, v) == match r2 {
                Ok(_) => Ok::<P, ErrorView>(p2),
                Err(e) => Err(e),
            }
        }),
{
}

/// Two parses of equal tokens with the same handler type have equal outcomes.
pub proof fn law_parse_is_deterministic<P: ArgumentParser>(t1: Seq<Seq<char>>, t2: Seq<Seq<char>>)
    requires
        t1 == t2,
    ensures
        walk(P::initial(), start_of(t1)) == walk(P::initial(), start_of(t2)),
{
}

} // verus!
