//! The renderer: from the written bars of a song to a fixed-width chart.
//!
//! Bars follow one another on a line, four to the line. A bar begins with
//! `|`, doubled after a double bar line, then `:` where a repeat begins, and
//! a space; its elements follow with a space between each two. A chord is
//! set flush right in six columns, and a wide chord has six blank columns
//! after it. A bar whose chords fill fewer than four beat slots is padded to
//! four. Where a repeat ends, `:` closes the bar, and `|` closes it before a
//! double bar line. Every line ends with `|`.

use vstd::prelude::*;
use crate::chart::{
    element_views, time_signature_text, write_time_signature, written_bar_views, Music,
    WrittenBar, WrittenBarView, WrittenElement, WrittenElementView,
};
use crate::text::{from_chars, repeated, write_chars, write_repeated, write_str};
use crate::tokenize::Width;
use crate::types::{chord_text, write_chord};

verus! {

/// The number of columns of a chord cell, and of a beat slot.
pub const CELL: usize = 6;

/// The number of beat slots a bar is padded to.
pub const SLOTS: usize = 4;

/// The number of bars on a line.
pub const BARS_PER_LINE: usize = 4;

/// `text` set flush right in `width` columns; `text` itself where it is
/// wider.
pub open spec fn right_aligned(text: Seq<char>, width: nat) -> Seq<char> {
    if text.len() >= width {
        text
    } else {
        repeated(' ', (width - text.len()) as nat) + text
    }
}

/// The coda sign: four characters, the private-use character U+F8FF and the
/// letters `ù`, `Ñ` and `å`.
pub open spec fn coda_sign() -> Seq<char> {
    seq!['\u{f8ff}', '\u{f9}', '\u{d1}', '\u{e5}']
}

/// The segno sign: the musical symbol U+1D10B.
pub open spec fn segno_sign() -> Seq<char> {
    seq!['\u{1d10b}']
}

/// The fermata sign: the musical symbol U+1D110.
pub open spec fn fermata_sign() -> Seq<char> {
    seq!['\u{1d110}']
}

/// The repeat sign `%` in the middle of a bar of four beat slots: twelve
/// blank columns before it and eleven after it.
pub open spec fn repeat_sign() -> Seq<char> {
    repeated(' ', 12) + "%"@ + repeated(' ', 11)
}

/// The text of one written element.
pub open spec fn element_text(e: WrittenElementView) -> Seq<char> {
    match e {
        WrittenElementView::SectionMarker(label) => "["@ + label + "]"@,
        WrittenElementView::TimeSignature(ts) => time_signature_text(ts),
        WrittenElementView::Chord(c, w) => match w {
            Width::Narrow => right_aligned(chord_text(c), 6),
            _ => right_aligned(chord_text(c), 6) + repeated(' ', 6),
        },
        WrittenElementView::NumberedEnding(label) => "N"@ + label,
        WrittenElementView::RepeatMeasure => repeat_sign(),
        WrittenElementView::RepeatTwoMeasures => repeat_sign(),
        WrittenElementView::Coda => coda_sign(),
        WrittenElementView::Segno => segno_sign(),
        WrittenElementView::Fermata => fermata_sign(),
    }
}

/// The number of beat slots the text of a written element fills: one for a
/// narrow chord, two for any other chord, four for a repeat sign, none for
/// anything else.
pub open spec fn element_slots(e: WrittenElementView) -> nat {
    match e {
        WrittenElementView::Chord(_, w) => match w {
            Width::Narrow => 1,
            _ => 2,
        },
        WrittenElementView::RepeatMeasure => 4,
        WrittenElementView::RepeatTwoMeasures => 4,
        _ => 0,
    }
}

/// The texts of the elements, with a space between each two.
pub open spec fn elements_text(elements: Seq<WrittenElementView>) -> Seq<char>
    decreases elements.len(),
{
    if elements.len() == 0 {
        Seq::empty()
    } else if elements.len() == 1 {
        element_text(elements[0])
    } else {
        elements_text(elements.drop_last()) + " "@ + element_text(elements.last())
    }
}

/// The number of beat slots the elements fill together.
pub open spec fn slots_filled(elements: Seq<WrittenElementView>) -> nat
    decreases elements.len(),
{
    if elements.len() == 0 {
        0
    } else {
        slots_filled(elements.drop_last()) + element_slots(elements.last())
    }
}

/// The blank columns that pad a bar of `filled` beat slots to four.
pub open spec fn padding(filled: nat) -> Seq<char> {
    if filled < 4 {
        repeated(' ', (6 * (4 - filled)) as nat)
    } else {
        Seq::empty()
    }
}

/// `mark` where `flag` holds, nothing where it does not.
pub open spec fn flagged(flag: bool, mark: Seq<char>) -> Seq<char> {
    if flag {
        mark
    } else {
        Seq::empty()
    }
}

/// The opening of a written bar: `|`, a second `|` after a double bar line,
/// `:` where a repeat begins, and a space.
pub open spec fn bar_opening(bar: WrittenBarView) -> Seq<char> {
    "|"@ + flagged(bar.double_start, "|"@) + flagged(bar.repeat_start, ":"@) + " "@
}

/// The closing of a written bar: `:` where a repeat ends, and `|` before a
/// double bar line.
pub open spec fn bar_closing(bar: WrittenBarView) -> Seq<char> {
    flagged(bar.repeat_end, ":"@) + flagged(bar.double_end, "|"@)
}

/// The text of one written bar, from its opening bar line to the end of its
/// last column; the bar line that closes it belongs to what follows.
pub open spec fn bar_text(bar: WrittenBarView) -> Seq<char> {
    bar_opening(bar) + elements_text(bar.elements) + padding(slots_filled(bar.elements))
        + bar_closing(bar)
}

/// The text of the bars one after another, with `|` and a line break before
/// every bar that begins a new line of four.
pub open spec fn chart_body(bars: Seq<WrittenBarView>) -> Seq<char>
    decreases bars.len(),
{
    if bars.len() == 0 {
        Seq::empty()
    } else {
        chart_body(bars.drop_last()) + flagged(
            (bars.len() - 1) % 4 == 0 && bars.len() - 1 > 0,
            "|\n"@,
        ) + bar_text(bars.last())
    }
}

/// The chart of the bars: their text in lines of four bars, each line closed
/// by `|` and a line break. No bars give no text.
pub open spec fn chart_text(bars: Seq<WrittenBarView>) -> Seq<char> {
    if bars.len() == 0 {
        Seq::empty()
    } else {
        chart_body(bars) + "|\n"@
    }
}

/// Appends `text` to `out`, flush right in six columns.
fn write_right_aligned(out: &mut Vec<char>, text: &Vec<char>)
    ensures
        final(out)@ == old(out)@ + right_aligned(text@, 6),
{
    if text.len() < CELL {
        write_repeated(out, ' ', CELL - text.len());
    }
    write_chars(out, text);
}

/// Appends the repeat sign to `out`.
fn write_repeat_sign(out: &mut Vec<char>)
    ensures
        final(out)@ == old(out)@ + repeat_sign(),
{
    write_repeated(out, ' ', 12);
    write_str(out, "%");
    write_repeated(out, ' ', 11);
}

/// Appends the text of the element `e` to `out`.
pub fn write_element(out: &mut Vec<char>, e: &WrittenElement)
    ensures
        final(out)@ == old(out)@ + element_text(e@),
{
    match e {
        WrittenElement::SectionMarker(label) => {
            write_str(out, "[");
            write_str(out, label.as_str());
            write_str(out, "]");
        },
        WrittenElement::TimeSignature(ts) => write_time_signature(out, *ts),
        WrittenElement::Chord(c, w) => {
            let mut text: Vec<char> = Vec::new();
            write_chord(&mut text, c);
            write_right_aligned(out, &text);
            match w {
                Width::Narrow => {},
                _ => write_repeated(out, ' ', CELL),
            }
        },
        WrittenElement::NumberedEnding(label) => {
            write_str(out, "N");
            write_str(out, label.as_str());
        },
        WrittenElement::RepeatMeasure => write_repeat_sign(out),
        WrittenElement::RepeatTwoMeasures => write_repeat_sign(out),
        WrittenElement::Coda => {
            out.push('\u{f8ff}');
            out.push('\u{f9}');
            out.push('\u{d1}');
            out.push('\u{e5}');
        },
        WrittenElement::Segno => out.push('\u{1d10b}'),
        WrittenElement::Fermata => out.push('\u{1d110}'),
    }
}

/// The number of beat slots the text of the element `e` fills.
fn slots_of(e: &WrittenElement) -> (n: usize)
    ensures
        n == element_slots(e@),
        n <= 4,
{
    match e {
        WrittenElement::Chord(_, w) => match w {
            Width::Narrow => 1,
            _ => 2,
        },
        WrittenElement::RepeatMeasure => 4,
        WrittenElement::RepeatTwoMeasures => 4,
        _ => 0,
    }
}

/// Appends the opening of the written bar `bar` to `out`.
fn write_bar_opening(out: &mut Vec<char>, bar: &WrittenBar)
    ensures
        final(out)@ == old(out)@ + bar_opening(bar@),
{
    write_str(out, "|");
    if bar.double_start {
        write_str(out, "|");
    }
    if bar.repeat_start {
        write_str(out, ":");
    }
    write_str(out, " ");
}

/// Appends the closing of the written bar `bar` to `out`.
fn write_bar_closing(out: &mut Vec<char>, bar: &WrittenBar)
    ensures
        final(out)@ == old(out)@ + bar_closing(bar@),
{
    if bar.repeat_end {
        write_str(out, ":");
    }
    if bar.double_end {
        write_str(out, "|");
    }
}

/// Appends the texts of `elements` to `out`, with a space between each two,
/// and counts the beat slots they fill, up to four.
fn write_elements(out: &mut Vec<char>, elements: &Vec<WrittenElement>) -> (filled: usize)
    ensures
        final(out)@ == old(out)@ + elements_text(element_views(elements@)),
        filled <= 4,
        filled < 4 ==> filled == slots_filled(element_views(elements@)),
        filled == 4 ==> slots_filled(element_views(elements@)) >= 4,
{
    let ghost before = out@;
    let ghost all = element_views(elements@);
    let mut filled: usize = 0;
    let mut i: usize = 0;
    assert(all.take(0) =~= Seq::<WrittenElementView>::empty());
    while i < elements.len()
        invariant
            i <= elements.len(),
            all == element_views(elements@),
            out@ == before + elements_text(all.take(i as int)),
            filled <= 4,
            filled < 4 ==> filled == slots_filled(all.take(i as int)),
            filled == 4 ==> slots_filled(all.take(i as int)) >= 4,
        decreases elements.len() - i,
    {
        let ghost so_far = elements_text(all.take(i as int));
        let ghost next = all.take(i + 1);
        proof {
            assert(next.drop_last() =~= all.take(i as int));
            assert(next.last() == elements@[i as int]@);
        }
        if i > 0 {
            write_str(out, " ");
        }
        write_element(out, &elements[i]);
        let n = slots_of(&elements[i]);
        proof {
            if i == 0 {
                assert(so_far =~= Seq::<char>::empty());
                assert(out@ =~= before + element_text(next.last()));
            } else {
                assert(out@ =~= before + (so_far + " "@ + element_text(next.last())));
            }
        }
        filled = if 4 - filled <= n {
            4
        } else {
            filled + n
        };
        i += 1;
    }
    assert(all.take(elements@.len() as int) =~= all);
    filled
}

/// Appends the text of the written bar `bar` to `out`.
pub fn write_bar(out: &mut Vec<char>, bar: &WrittenBar)
    ensures
        final(out)@ == old(out)@ + bar_text(bar@),
{
    let ghost before = out@;
    write_bar_opening(out, bar);
    let filled = write_elements(out, &bar.elements);
    let ghost body = out@;
    if filled < SLOTS {
        write_repeated(out, ' ', CELL * (SLOTS - filled));
    }
    assert(out@ =~= body + padding(slots_filled(bar@.elements)));
    write_bar_closing(out, bar);
    assert(out@ =~= before + bar_text(bar@));
}

/// Appends the chart of `bars` to `out`.
pub fn write_chart(out: &mut Vec<char>, bars: &Vec<WrittenBar>)
    ensures
        final(out)@ == old(out)@ + chart_text(written_bar_views(bars@)),
{
    let ghost before = out@;
    let ghost all = written_bar_views(bars@);
    let mut i: usize = 0;
    assert(all.take(0) =~= Seq::<WrittenBarView>::empty());
    while i < bars.len()
        invariant
            i <= bars.len(),
            all == written_bar_views(bars@),
            out@ == before + chart_body(all.take(i as int)),
        decreases bars.len() - i,
    {
        if i % BARS_PER_LINE == 0 && i > 0 {
            write_str(out, "|\n");
        }
        write_bar(out, &bars[i]);
        proof {
            let next = all.take(i + 1);
            assert(next.drop_last() =~= all.take(i as int));
            assert(next.last() == bars@[i as int]@);
        }
        i += 1;
    }
    assert(all.take(bars@.len() as int) =~= all);
    if bars.len() > 0 {
        write_str(out, "|\n");
    }
}

/// The chart of `music`: its written bars in lines of four, as text.
pub fn render(music: &Music) -> (r: String)
    ensures
        r@ == chart_text(music@.written_bars),
{
    let mut out: Vec<char> = Vec::new();
    write_chart(&mut out, &music.written_bars);
    from_chars(&out)
}

impl WrittenBar {
    /// The text of the bar, without the bar line that closes it.
    pub fn to_text(&self) -> (r: String)
        ensures
            r@ == bar_text(self@),
    {
        let mut out: Vec<char> = Vec::new();
        write_bar(&mut out, self);
        from_chars(&out)
    }
}

impl Music {
    /// The chart of the music, as [`render`] gives it.
    pub fn to_text(&self) -> (r: String)
        ensures
            r@ == chart_text(self@.written_bars),
    {
        render(self)
    }
}

/// The chart depends on nothing but the written bars: two musics with the
/// same written bars have the same chart, so that rendering one music twice
/// gives the same text both times.
pub proof fn lemma_render_repeatable(first: Music, second: Music)
    requires
        first@.written_bars == second@.written_bars,
    ensures
        chart_text(first@.written_bars) == chart_text(second@.written_bars),
{
}

} // verus!
