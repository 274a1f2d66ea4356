//! A normal form for tokens: without the tokens that only space the chart,
//! with every chord told its width, and with the shorthand for a bar line
//! and a repeat sign written out.

use vstd::prelude::*;
use crate::error::SemanticError;
use crate::parse::{
    assemble, chord_width, lemma_run_concat, run, start, step, ParserView,
};
use crate::tokenize::{token_views, Token, TokenView, Width};

verus! {

/// The normal form of `tokens`, read where chords are squeezed or not as
/// `squeezed` says. Blanks, spaces and commas are left out. A bar line with
/// a repeat sign becomes a bar line and a repeat sign. The tokens that
/// squeeze and unsqueeze are left out, and each chord without a width gets
/// the one in force where it stands. Every other token stays.
pub open spec fn simplified_from(tokens: Seq<TokenView>, squeezed: bool) -> Seq<TokenView>
    decreases tokens.len(),
{
    if tokens.len() == 0 {
        Seq::empty()
    } else {
        match tokens[0] {
            TokenView::Blank => simplified_from(tokens.skip(1), squeezed),
            TokenView::Space => simplified_from(tokens.skip(1), squeezed),
            TokenView::Comma => simplified_from(tokens.skip(1), squeezed),
            TokenView::BarAndRepeat => seq![TokenView::Bar, TokenView::RepeatMeasure]
                + simplified_from(tokens.skip(1), squeezed),
            TokenView::Squeeze => simplified_from(tokens.skip(1), true),
            TokenView::Unsqueeze => simplified_from(tokens.skip(1), false),
            TokenView::Chord(c, w) => seq![TokenView::Chord(c, chord_width(w, squeezed))]
                + simplified_from(tokens.skip(1), squeezed),
            t => seq![t] + simplified_from(tokens.skip(1), squeezed),
        }
    }
}

/// The normal form of the tokens of a chart, which begins with wide chords.
pub open spec fn simplified(tokens: Seq<TokenView>) -> Seq<TokenView> {
    simplified_from(tokens, false)
}

/// Brings `input` into normal form: leaves out the tokens that only space
/// the chart, writes a bar line with a repeat sign as the two tokens it
/// stands for, and tells every chord its width.
pub fn simplify(input: &Vec<Token>) -> (output: Vec<Token>)
    ensures
        token_views(output@) == simplified(token_views(input@)),
{
    let ghost all = token_views(input@);
    let mut output: Vec<Token> = Vec::new();
    let mut squeezed = false;
    let mut i: usize = 0;
    assert(all.skip(0) =~= all);
    assert(token_views(output@) + simplified_from(all, false) =~= simplified_from(all, false));
    while i < input.len()
        invariant
            i <= input.len(),
            all == token_views(input@),
            simplified(all) == token_views(output@) + simplified_from(
                all.skip(i as int),
                squeezed,
            ),
        decreases input.len() - i,
    {
        let ghost before = output@;
        let ghost rest = all.skip(i + 1);
        proof {
            assert(all.skip(i as int)[0] == input@[i as int]@);
            assert(all.skip(i as int).skip(1) =~= rest);
        }
        match &input[i] {
            Token::Blank => {},
            Token::Space => {},
            Token::Comma => {},
            Token::BarAndRepeat => {
                output.push(Token::Bar);
                output.push(Token::RepeatMeasure);
                assert(token_views(output@) =~= token_views(before) + seq![
                    TokenView::Bar,
                    TokenView::RepeatMeasure,
                ]);
                assert(token_views(before) + (seq![TokenView::Bar, TokenView::RepeatMeasure]
                    + simplified_from(rest, squeezed)) =~= token_views(output@)
                    + simplified_from(rest, squeezed));
            },
            Token::Squeeze => {
                squeezed = true;
            },
            Token::Unsqueeze => {
                squeezed = false;
            },
            Token::Chord(c, w) => {
                let width = match w {
                    Width::Unknown => if squeezed {
                        Width::Narrow
                    } else {
                        Width::Wide
                    },
                    Width::Wide => Width::Wide,
                    Width::Narrow => Width::Narrow,
                };
                let chord = Token::Chord(c.clone(), width);
                let ghost cv = chord@;
                output.push(chord);
                assert(token_views(output@) =~= token_views(before).push(cv));
                assert(token_views(before) + (seq![cv] + simplified_from(rest, squeezed))
                    =~= token_views(output@) + simplified_from(rest, squeezed));
            },
            token => {
                let copy = token.clone();
                let ghost tv = copy@;
                output.push(copy);
                assert(token_views(output@) =~= token_views(before).push(tv));
                assert(token_views(before) + (seq![tv] + simplified_from(rest, squeezed))
                    =~= token_views(output@) + simplified_from(rest, squeezed));
            },
        }
        i += 1;
    }
    assert(all.skip(input@.len() as int) =~= Seq::<TokenView>::empty());
    assert(token_views(output@) + Seq::<TokenView>::empty() =~= token_views(output@));
    output
}

/// Whether the states `a` and `b` differ in nothing but the width of chords
/// in force.
pub open spec fn same_but_width(a: ParserView, b: ParserView) -> bool {
    a == (ParserView { squeezed: a.squeezed, ..b })
}

/// Whether the two results are the same error, or states that differ in
/// nothing but the width of chords in force.
pub open spec fn same_outcome(
    a: Result<ParserView, SemanticError>,
    b: Result<ParserView, SemanticError>,
) -> bool {
    match (a, b) {
        (Ok(x), Ok(y)) => same_but_width(x, y),
        (Err(x), Err(y)) => x == y,
        _ => false,
    }
}

/// Reading tokens and reading their normal form end alike: in the same
/// error, or in states that differ in nothing but the width of chords in
/// force.
pub proof fn lemma_simplified_run(a: ParserView, b: ParserView, tokens: Seq<TokenView>)
    requires
        same_but_width(a, b),
    ensures
        same_outcome(run(a, tokens), run(b, simplified_from(tokens, a.squeezed))),
    decreases tokens.len(),
{
    if tokens.len() > 0 {
        let t = tokens[0];
        let rest = tokens.skip(1);
        match t {
            TokenView::Blank => lemma_simplified_run(a, b, rest),
            TokenView::Space => lemma_simplified_run(a, b, rest),
            TokenView::Comma => lemma_simplified_run(a, b, rest),
            TokenView::Squeeze => lemma_simplified_run(ParserView { squeezed: true, ..a }, b, rest),
            TokenView::Unsqueeze => lemma_simplified_run(
                ParserView { squeezed: false, ..a },
                b,
                rest,
            ),
            TokenView::BarAndRepeat => {
                let head = seq![TokenView::Bar, TokenView::RepeatMeasure];
                lemma_run_concat(b, head, simplified_from(rest, a.squeezed));
                lemma_run_concat(b, seq![TokenView::Bar], seq![TokenView::RepeatMeasure]);
                assert(head =~= seq![TokenView::Bar] + seq![TokenView::RepeatMeasure]);
                lemma_run_one(b, TokenView::Bar);
                lemma_run_one(step(b, TokenView::Bar).unwrap(), TokenView::RepeatMeasure);
                match step(a, t) {
                    Ok(next) => lemma_simplified_run(next, run(b, head).unwrap(), rest),
                    Err(_) => {},
                }
            },
            TokenView::Chord(c, w) => {
                let told = TokenView::Chord(c, chord_width(w, a.squeezed));
                lemma_run_one(b, told);
                lemma_run_concat(b, seq![told], simplified_from(rest, a.squeezed));
                match step(a, t) {
                    Ok(next) => lemma_simplified_run(next, step(b, told).unwrap(), rest),
                    Err(_) => {},
                }
            },
            _ => {
                lemma_run_one(b, t);
                lemma_run_concat(b, seq![t], simplified_from(rest, a.squeezed));
                lemma_step_same(a, b, t);
                match step(a, t) {
                    Ok(next) => lemma_simplified_run(next, step(b, t).unwrap(), rest),
                    Err(_) => {},
                }
            },
        }
    }
}

/// Reading a single token is one step.
proof fn lemma_run_one(s: ParserView, t: TokenView)
    ensures
        run(s, seq![t]) == step(s, t),
{
    assert(seq![t].skip(1) =~= Seq::<TokenView>::empty());
    reveal_with_fuel(run, 2);
}

/// A token that neither squeezes nor unsqueezes, and is no chord, takes
/// states that differ in nothing but the width of chords in force to
/// outcomes that differ in nothing else.
proof fn lemma_step_same(a: ParserView, b: ParserView, t: TokenView)
    requires
        same_but_width(a, b),
        !(t is Squeeze),
        !(t is Unsqueeze),
        !(t is Chord),
    ensures
        same_outcome(step(a, t), step(b, t)),
{
}

/// Tokens and their normal form describe the same music, or are refused
/// with the same error.
pub proof fn lemma_simplify_keeps_music(tokens: Seq<TokenView>)
    ensures
        assemble(simplified(tokens)) == assemble(tokens),
{
    lemma_simplified_run(start(), start(), tokens);
}

} // verus!
