//! The handler interface and the dispatch loop.

use vstd::prelude::*;
use crate::source::{
    ErrorView, ParseError, SourceView, ValueSource, tokens_view, unit_view, unused_inline,
};
use crate::token::{
    ClassView, Origin, OriginView, ShortCall, ShortCallView, TokenClass, calls_view, class_of,
    classify, cluster_calls, short_call_at, eq_index, lemma_eq_index_bounds,
};

verus! {

/// The text that `ArgumentParser::version` gives unless an application says otherwise.
pub const DEFAULT_VERSION: &'static str = "argwalk v0.1.0";

/// What an application supplies to receive its arguments. One value of the
/// implementing type is made with `fresh` before parsing, every handler call
/// updates it, and the parse hands it back.
///
/// Each handler is described by a step function: from the handler value and
/// what it receives, the handler value afterwards, its result and the value
/// source afterwards. A handler that only asks its source for values
/// (`ValueSource::take`) leaves the source as the contracts below require.
/// A verified application defines the step functions; where an implementation
/// does not, they stay unspecified.
pub trait ArgumentParser: Sized {
    /// The handler value before any token is seen.
    open spec fn initial() -> Self {
        arbitrary()
    }

    /// What `long` does.
    open spec fn long_step(self, long: Seq<char>, next: SourceView) -> (
        Self,
        Result<(), ErrorView>,
        SourceView,
    ) {
        arbitrary()
    }

    /// What `short` does.
    open spec fn short_step(self, short: char, is_last: bool, next: SourceView) -> (
        Self,
        Result<(), ErrorView>,
        SourceView,
    ) {
        arbitrary()
    }

    /// What `argument` does.
    open spec fn argument_step(self, arg: Seq<char>, next: SourceView) -> (
        Self,
        Result<bool, ErrorView>,
        SourceView,
    ) {
        arbitrary()
    }

    /// What `subcommand` does.
    open spec fn subcommand_step(self, command: Seq<char>, command_args: Seq<Seq<char>>) -> (
        Self,
        Result<(), ErrorView>,
    ) {
        arbitrary()
    }

    /// Makes the handler value that a parse starts from.
    fn fresh() -> (r: Self)
        ensures
            r == Self::initial(),
    ;

    /// Whether `version` gives `DEFAULT_VERSION`. An implementation that
    /// writes its own version text sets this to `false`.
    open spec fn keeps_default_version() -> bool {
        true
    }

    /// The application's version text.
    fn version(&self) -> (r: &'static str)
        ensures
            Self::keeps_default_version() ==> r@ == DEFAULT_VERSION@,
    {
        DEFAULT_VERSION
    }

    /// The application's help text.
    fn help(&self) -> String;

    /// Handles the long flag `--long` (or `--long=value`). It is called right
    /// after its token was read, with a fresh source that holds the inline value,
    /// or else draws from the stream.
    fn long(&mut self, long: &str, next: &mut ValueSource) -> (r: Result<(), ParseError>)
        requires
            0 < old(next)@.pos <= old(next)@.tokens.len(),
            !old(next)@.taken,
            old(next)@.origin is Inline || old(next)@.origin is Stream,
            class_of(old(next)@.current()) == (ClassView::Long {
                name: long@,
                inline: match old(next)@.origin {
                    OriginView::Inline(v) => Some(v),
                    _ => None,
                },
            }),
        ensures
            final(next)@.follows(old(next)@),
            (*final(self), unit_view(r), final(next)@) == old(self).long_step(long@, old(next)@),
    ;

    /// Handles the short flag `short`; `is_last` tells whether it ends its cluster.
    /// It is called with a fresh source, for one of the calls of the cluster token
    /// read last.
    fn short(&mut self, short: char, is_last: bool, next: &mut ValueSource) -> (r: Result<
        (),
        ParseError,
    >)
        requires
            0 < old(next)@.pos <= old(next)@.tokens.len(),
            !old(next)@.taken,
            class_of(old(next)@.current()) is Short,
            cluster_calls(old(next)@.current().skip(1)).contains(
                ShortCallView { flag: short, is_last, origin: old(next)@.origin },
            ),
        ensures
            final(next)@.follows(old(next)@),
            (*final(self), unit_view(r), final(next)@) == old(self).short_step(
                short,
                is_last,
                old(next)@,
            ),
    ;

    /// Handles a positional argument. `Ok(true)` asks for `arg` to be run as a
    /// subcommand on all the tokens that are left. It is called right after `arg`
    /// was read, with a fresh source that draws from the stream.
    fn argument(&mut self, arg: &str, next: &mut ValueSource) -> (r: Result<bool, ParseError>)
        requires
            0 < old(next)@.pos <= old(next)@.tokens.len(),
            !old(next)@.taken,
            old(next)@.origin is Stream,
            old(next)@.current() == arg@,
            class_of(arg@) == ClassView::Positional,
        ensures
            final(next)@.follows(old(next)@),
            (*final(self), bool_view(r), final(next)@) == old(self).argument_step(
                arg@,
                old(next)@,
            ),
    ;

    /// Handles the subcommand `command` (a positional token whose argument
    /// handler asked for it) with all the tokens that follow, not yet consumed.
    fn subcommand(&mut self, command: &str, command_args: Vec<String>) -> (r: Result<
        (),
        ParseError,
    >)
        requires
            class_of(command@) == ClassView::Positional,
        ensures
            (*final(self), unit_view(r)) == old(self).subcommand_step(
                command@,
                tokens_view(command_args@),
            ),
    ;
}

/// The mathematical form of a handler's answer to a positional argument.
pub open spec fn bool_view(r: Result<bool, ParseError>) -> Result<bool, ErrorView> {
    match r {
        Ok(b) => Ok(b),
        Err(e) => Err(e@),
    }
}

/// The mathematical form of a parse's outcome.
pub open spec fn outcome_view<P>(r: Result<P, ParseError>) -> Result<P, ErrorView> {
    match r {
        Ok(p) => Ok(p),
        Err(e) => Err(e@),
    }
}

/// `after` is where a dispatch that started reading at `before` may resume:
/// the same stream, no token given back.
pub open spec fn resumes(after: SourceView, before: SourceView) -> bool {
    after.tokens == before.tokens && before.pos <= after.pos <= after.tokens.len()
}

/// The short-flag calls `calls`, dispatched in order from handler `p` and source
/// `v`: each with a source armed for its origin, each followed by the check for
/// an unused inline value, the first failure ending the walk.
pub open spec fn cluster_walk<P: ArgumentParser>(
    p: P,
    calls: Seq<ShortCallView>,
    v: SourceView,
) -> Result<(P, SourceView), ErrorView>
    decreases calls.len(),
{
    if calls.len() == 0 {
        Ok((p, v))
    } else {
        let c = calls[0];
        let armed = SourceView { origin: c.origin, taken: false, ..v };
        let (p1, r, after) = p.short_step(c.flag, c.is_last, armed);
        match r {
            Err(e) => Err(e),
            Ok(_) => match unused_inline(after, seq![c.flag]) {
                Err(e) => Err(e),
                Ok(_) => cluster_walk(p1, calls.drop_first(), after),
            },
        }
    }
}

/// The outcome of parsing the tokens of `v` from index `v.pos` on, with handler
/// value `p`: each token is read, classified and dispatched in order; the first
/// failure, of a handler or of the unused-inline-value check, ends the parse
/// with that error; a positional token whose handler answers `Ok(true)` hands
/// the tokens left to `subcommand` and ends the parse.
pub open spec fn walk<P: ArgumentParser>(p: P, v: SourceView) -> Result<P, ErrorView>
    decreases v.tokens.len() - v.pos,
{
    if v.pos < 0 || v.pos >= v.tokens.len() {
        Ok(p)
    } else {
        let tok = v.tokens[v.pos];
        let read = SourceView { pos: v.pos + 1, ..v };
        match class_of(tok) {
            ClassView::Long { name, inline } => {
                let armed = SourceView {
                    origin: match inline {
                        Some(x) => OriginView::Inline(x),
                        None => OriginView::Stream,
                    },
                    taken: false,
                    ..read
                };
                let (p1, r, after) = p.long_step(name, armed);
                match r {
                    Err(e) => Err(e),
                    Ok(_) => match unused_inline(after, name) {
                        Err(e) => Err(e),
                        Ok(_) => if resumes(after, read) {
                            walk(p1, after)
                        } else {
                            Ok(p1)
                        },
                    },
                }
            },
            ClassView::Short { calls } => match cluster_walk(p, calls, read) {
                Err(e) => Err(e),
                Ok((p1, after)) => if resumes(after, read) {
                    walk(p1, after)
                } else {
                    Ok(p1)
                },
            },
            ClassView::Positional => {
                let armed = SourceView { origin: OriginView::Stream, taken: false, ..read };
                let (p1, r, after) = p.argument_step(tok, armed);
                match r {
                    Err(e) => Err(e),
                    Ok(true) => {
                        let (p2, r2) = p1.subcommand_step(tok, after.rest());
                        match r2 {
                            Err(e) => Err(e),
                            Ok(_) => Ok(p2),
                        }
                    },
                    Ok(false) => if resumes(after, read) {
                        walk(p1, after)
                    } else {
                        Ok(p1)
                    },
                }
            },
        }
    }
}

/// Where a parse of `tokens` starts.
pub open spec fn start_of(tokens: Seq<Seq<char>>) -> SourceView {
    SourceView { tokens, pos: 0, origin: OriginView::Stream, taken: false }
}

/// Copies a value origin.
fn copy_origin(o: &Origin) -> (r: Origin)
    ensures
        r@ == o@,
{
    match o {
        Origin::Inline(v) => Origin::Inline(v.clone()),
        Origin::Stream => Origin::Stream,
        Origin::MidCluster(c) => Origin::MidCluster(*c),
    }
}

/// The one-character name of a short flag.
fn flag_name(c: char) -> (r: String)
    ensures
        r@ == seq![c],
{
    let cs: Vec<char> = vec![c];
    let r = crate::token::string_of(cs.as_slice());
    assert(cs@ =~= seq![c]);
    r
}

/// Dispatches the short-flag calls of one cluster, in order, stopping at the first failure.
fn dispatch_cluster<P: ArgumentParser>(
    parser: &mut P,
    calls: &Vec<ShortCall>,
    src: &mut ValueSource,
) -> (r: Result<(), ParseError>)
    requires
        0 < old(src)@.pos <= old(src)@.tokens.len(),
        class_of(old(src)@.current()) == (ClassView::Short { calls: calls_view(calls@) }),
    ensures
        resumes(final(src)@, old(src)@),
        match r {
            Ok(_) => cluster_walk(*old(parser), calls_view(calls@), old(src)@) == Ok::<
                (P, SourceView),
                ErrorView,
            >((*final(parser), final(src)@)),
            Err(e) => cluster_walk(*old(parser), calls_view(calls@), old(src)@) == Err::<
                (P, SourceView),
                ErrorView,
            >(e@),
        },
{
    let ghost start = src@;
    assert(calls_view(calls@).skip(0) =~= calls_view(calls@));
    let mut j: usize = 0;
    while j < calls.len()
        invariant
            start == old(src)@,
            0 < start.pos,
            class_of(start.current()) == (ClassView::Short { calls: calls_view(calls@) }),
            src@.tokens == start.tokens,
            start.pos <= src@.pos <= src@.tokens.len(),
            j < calls.len() ==> src@.pos == start.pos,
            j <= calls.len(),
            cluster_walk(*parser, calls_view(calls@).skip(j as int), src@) == cluster_walk(
                *old(parser),
                calls_view(calls@),
                start,
            ),
        decreases calls.len() - j,
    {
        let call = &calls[j];
        proof {
            let rest = calls_view(calls@).skip(j as int);
            assert(rest[0] == calls@[j as int]@);
            assert(rest.drop_first() =~= calls_view(calls@).skip(j + 1));
        }
        src.arm(copy_origin(&call.origin));
        proof {
            let s = start.current().skip(1);
            assert(calls_view(calls@)[j as int] == calls@[j as int]@);
            assert(calls_view(calls@) == cluster_calls(s));
            assert(cluster_calls(s).contains(
                ShortCallView { flag: call.flag, is_last: call.is_last, origin: src@.origin },
            ));
            if j + 1 < calls.len() {
                lemma_eq_index_bounds(s.skip(1));
                assert(cluster_calls(s)[j as int] == short_call_at(s, j as int, eq_index(s.skip(1))));
                assert(src@.origin is MidCluster);
            }
        }
        let handled = parser.short(call.flag, call.is_last, &mut *src);
        if let Err(e) = handled {
            return Err(e);
        }
        let checked = src.finish(&flag_name(call.flag));
        if let Err(e) = checked {
            return Err(e);
        }
        j = j + 1;
    }
    assert(calls_view(calls@).skip(j as int) =~= Seq::<ShortCallView>::empty());
    Ok(())
}

/// Walks `args`, dispatching each token to `P`'s handlers, and returns the
/// handler value once the tokens are exhausted or a subcommand has run. Its
/// outcome is `walk` from `P::initial()` over all of `args`: every call, its
/// order, what each handler receives and what follows from each answer.
pub fn parse<P: ArgumentParser>(args: Vec<String>) -> (r: Result<P, ParseError>)
    ensures
        args@.len() == 0 ==> r matches Err(ParseError::EmptyInput),
        args@.len() > 0 ==> outcome_view(r) == walk(P::initial(), start_of(tokens_view(args@))),
{
    if args.len() == 0 {
        return Err(ParseError::EmptyInput);
    }
    let mut parser = P::fresh();
    let ghost toks = tokens_view(args@);
    let mut src = ValueSource::new(args, Origin::Stream);
    loop
        invariant
            args@.len() > 0,
            0 <= src@.pos,
            src@.tokens == toks,
            src@.pos <= src@.tokens.len(),
            toks == tokens_view(args@),
            walk(parser, src@) == walk(P::initial(), start_of(toks)),
        ensures
            toks == tokens_view(args@),
            walk(P::initial(), start_of(toks)) == Ok::<P, ErrorView>(parser),
        decreases src@.tokens.len() - src@.pos,
    {
        let ghost v = src@;
        let tok = match src.next_token() {
            Some(t) => t,
            None => {
                assert(walk(parser, v) == Ok::<P, ErrorView>(parser));
                break;
            },
        };
        let class = classify(&tok);
        assert(tok@ == src@.current());
        match class {
            TokenClass::Long { name, inline } => {
                let origin = match inline {
                    Some(v) => Origin::Inline(v),
                    None => Origin::Stream,
                };
                src.arm(origin);
                let handled = parser.long(name.as_str(), &mut src);
                if let Err(e) = handled {
                    return Err(e);
                }
                let checked = src.finish(&name);
                if let Err(e) = checked {
                    return Err(e);
                }
            },
            TokenClass::Short { calls } => {
                let handled = dispatch_cluster(&mut parser, &calls, &mut src);
                if let Err(e) = handled {
                    return Err(e);
                }
            },
            TokenClass::Positional => {
                src.arm(Origin::Stream);
                let handled = parser.argument(tok.as_str(), &mut src);
                match handled {
                    Err(e) => {
                        return Err(e);
                    },
                    Ok(true) => {
                        let rest = src.into_rest();
                        let ran = parser.subcommand(tok.as_str(), rest);
                        if let Err(e) = ran {
                            return Err(e);
                        }
                        return Ok(parser);
                    },
                    Ok(false) => {},
                }
            },
        }
    }
    Ok(parser)
}

} // verus!
