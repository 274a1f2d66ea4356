//! The bar parser: from tokens to the bars of a song.
//!
//! The tokens are read from left to right by a state machine. Its state holds
//! the bars closed so far, the bar that is open, if any, with the beat slot
//! where the next chord goes, and what has been read for the page since the
//! last bar was closed.

use vstd::prelude::*;
use crate::chart::{
    bar_views, count_views, element_views, empty_bar, marker_views, plain_page,
    written_bar_views, Bar, BarView, CountElement, CountElementView, Marker, MarkerView, Music,
    MusicView, TimeSignature, WrittenBar, WrittenBarView, WrittenElement, WrittenElementView,
};
use crate::error::{DecodeError, SemanticError};
use crate::text::{from_chars, to_chars};
use crate::tokenize::{lex, token_views, tokenize_chars, Token, TokenView, Width};
use crate::types::{chord_views, clone_chords, Chord, ChordView};

verus! {

/// The state of the bar parser between two tokens.
pub struct Parser {
    /// The bars closed so far.
    pub bars: Vec<Bar>,
    /// The closed bars as written on the page, one for each of `bars`.
    pub written_bars: Vec<WrittenBar>,
    /// The open bar, if a chord or a repeat sign has opened one.
    pub current: Option<Bar>,
    /// The beat slot of the open bar where the next chord goes.
    pub cursor: usize,
    /// The beat slot of the chord placed last in the open bar.
    pub anchor: Option<usize>,
    /// The time signature in force: a new bar gets `top` beat slots.
    pub signature: TimeSignature,
    /// Whether chords are narrow, one beat slot each, or wide, two each.
    pub squeezed: bool,
    /// The markers read since the last bar was closed.
    pub markers: Vec<Marker>,
    /// What has been written since the last bar was closed.
    pub page: WrittenBar,
}

/// The mathematical value of a [`Parser`].
pub struct ParserView {
    pub bars: Seq<BarView>,
    pub written_bars: Seq<WrittenBarView>,
    pub current: Option<BarView>,
    pub cursor: nat,
    pub anchor: Option<nat>,
    pub signature: TimeSignature,
    pub squeezed: bool,
    pub markers: Seq<MarkerView>,
    pub page: WrittenBarView,
}

impl View for Parser {
    type V = ParserView;

    open spec fn view(&self) -> ParserView {
        ParserView {
            bars: bar_views(self.bars@),
            written_bars: written_bar_views(self.written_bars@),
            current: match self.current {
                Some(bar) => Some(bar@),
                None => None,
            },
            cursor: self.cursor as nat,
            anchor: match self.anchor {
                Some(a) => Some(a as nat),
                None => None,
            },
            signature: self.signature,
            squeezed: self.squeezed,
            markers: marker_views(self.markers@),
            page: self.page@,
        }
    }
}

/// The state before the first token: no bar, four beats to the bar, wide
/// chords.
pub open spec fn start() -> ParserView {
    ParserView {
        bars: Seq::empty(),
        written_bars: Seq::empty(),
        current: None,
        cursor: 0,
        anchor: None,
        signature: TimeSignature { top: 4, bottom: 4 },
        squeezed: false,
        markers: Seq::empty(),
        page: plain_page(Seq::empty()),
    }
}

/// The width a chord is written with: its own where it has one, else narrow
/// while chords are squeezed and wide while they are not.
pub open spec fn chord_width(w: Width, squeezed: bool) -> Width {
    match w {
        Width::Unknown => if squeezed {
            Width::Narrow
        } else {
            Width::Wide
        },
        _ => w,
    }
}

/// The number of beat slots a chord of width `w` takes: one if narrow, else
/// two.
pub open spec fn width_slots(w: Width) -> nat {
    match w {
        Width::Narrow => 1,
        _ => 2,
    }
}

/// The state with `e` written at the end of the page.
pub open spec fn written(s: ParserView, e: WrittenElementView) -> ParserView {
    ParserView { page: WrittenBarView { elements: s.page.elements.push(e), ..s.page }, ..s }
}

/// The state after a bar line. Where a bar is open, it is closed: it joins
/// the closed bars with the flags and markers read since the last bar was
/// closed and with the flags of the bar line, the page joins the written
/// bars, and a new page begins. Where no bar is open, nothing changes.
pub open spec fn sealed(s: ParserView, repeat_end: bool, double_end: bool, final_bar: bool)
    -> ParserView {
    match s.current {
        None => s,
        Some(bar) => ParserView {
            bars: s.bars.push(
                BarView {
                    double_start: bar.double_start || s.page.double_start,
                    double_end: bar.double_end || double_end,
                    repeat_start: bar.repeat_start || s.page.repeat_start,
                    repeat_end: bar.repeat_end || repeat_end,
                    final_bar: bar.final_bar || final_bar,
                    markers: bar.markers + s.markers,
                    counts: bar.counts,
                },
            ),
            written_bars: s.written_bars.push(
                WrittenBarView { repeat_end, double_end, ..s.page },
            ),
            current: None,
            cursor: 0,
            anchor: None,
            markers: Seq::empty(),
            page: plain_page(Seq::empty()),
            ..s
        },
    }
}

/// The state after a chord. Where no bar is open, one opens with as many
/// empty beat slots as the time signature has beats. The chord is written on
/// the page in every case. Where the cursor stands on a slot, the chord goes
/// to that slot, and the cursor moves on by the slots the chord takes, but
/// not beyond the end of the bar. Where the cursor stands at the end of the
/// bar, no slot is left: the bar stays as it is, with the number of slots it
/// has, and the chord is on the page alone, so that no chord is the one
/// placed last.
pub open spec fn placed(s: ParserView, c: ChordView, w: Width) -> ParserView {
    let bar = match s.current {
        Some(bar) => bar,
        None => empty_bar(s.signature.top as nat),
    };
    let cursor = if s.current is Some {
        s.cursor
    } else {
        0
    };
    let width = chord_width(w, s.squeezed);
    if cursor >= bar.counts.len() {
        ParserView {
            current: Some(bar),
            cursor: bar.counts.len(),
            anchor: None,
            ..written(s, WrittenElementView::Chord(c, width))
        }
    } else {
        ParserView {
            current: Some(
                BarView {
                    counts: bar.counts.update(
                        cursor as int,
                        CountElementView::Chord(c, Seq::empty()),
                    ),
                    ..bar
                },
            ),
            cursor: if cursor + width_slots(width) <= bar.counts.len() {
                cursor + width_slots(width)
            } else {
                bar.counts.len()
            },
            anchor: Some(cursor),
            ..written(s, WrittenElementView::Chord(c, width))
        }
    }
}

/// The state after an alternate chord: the chord is layered above the chord
/// placed last in the open bar. Where there is none, nothing changes.
pub open spec fn layered(s: ParserView, c: ChordView) -> ParserView {
    match (s.current, s.anchor) {
        (Some(bar), Some(a)) => if a < bar.counts.len() {
            match bar.counts[a as int] {
                CountElementView::Chord(primary, alternates) => ParserView {
                    current: Some(
                        BarView {
                            counts: bar.counts.update(
                                a as int,
                                CountElementView::Chord(primary, alternates.push(c)),
                            ),
                            ..bar
                        },
                    ),
                    ..s
                },
                CountElementView::Empty => s,
            }
        } else {
            s
        },
        _ => s,
    }
}

/// The state after a marker: it waits for the bar that is closed next, and
/// it is written on the page.
pub open spec fn marked(s: ParserView, m: MarkerView, e: WrittenElementView) -> ParserView {
    ParserView { markers: s.markers.push(m), ..written(s, e) }
}

/// The state after a one-measure repeat sign: a copy of the bar closed last
/// becomes the open bar, with the cursor at its first slot. Without a closed
/// bar the sign is an error.
pub open spec fn repeated_last(s: ParserView) -> Result<ParserView, SemanticError> {
    if s.bars.len() == 0 {
        Err(SemanticError::NoPriorBar)
    } else {
        Ok(
            ParserView {
                current: Some(s.bars.last()),
                cursor: 0,
                anchor: None,
                ..written(s, WrittenElementView::RepeatMeasure)
            },
        )
    }
}

/// The state after a two-measure repeat sign: a copy of the last closed bar
/// but one joins the closed bars as it is, with a written bar that holds one
/// half of the sign, and a copy of the bar closed last becomes the open bar,
/// with the other half of the sign on its page. With fewer than two closed
/// bars the sign is an error.
pub open spec fn repeated_two(s: ParserView) -> Result<ParserView, SemanticError> {
    if s.bars.len() < 2 {
        Err(SemanticError::InsufficientHistory)
    } else {
        Ok(
            ParserView {
                bars: s.bars.push(s.bars[s.bars.len() - 2]),
                written_bars: s.written_bars.push(
                    plain_page(seq![WrittenElementView::RepeatTwoMeasures]),
                ),
                current: Some(s.bars.last()),
                cursor: 0,
                anchor: None,
                ..written(s, WrittenElementView::RepeatTwoMeasures)
            },
        )
    }
}

/// The state after the token `t`, or the error the token is.
pub open spec fn step(s: ParserView, t: TokenView) -> Result<ParserView, SemanticError> {
    match t {
        TokenView::Chord(c, w) => Ok(placed(s, c, w)),
        TokenView::AlternateChord(c) => Ok(layered(s, c)),
        TokenView::Bar => Ok(sealed(s, false, false, false)),
        TokenView::FinalBar => Ok(sealed(s, false, false, true)),
        TokenView::DoubleBarEnd => Ok(sealed(s, false, true, false)),
        TokenView::RepeatEnd => Ok(sealed(s, true, false, false)),
        TokenView::DoubleBarStart => {
            let closed = sealed(s, false, false, false);
            Ok(
                ParserView {
                    page: WrittenBarView { double_start: true, ..closed.page },
                    ..closed
                },
            )
        },
        TokenView::RepeatStart => Ok(
            ParserView { page: WrittenBarView { repeat_start: true, ..s.page }, ..s },
        ),
        TokenView::RepeatMeasure => repeated_last(s),
        TokenView::BarAndRepeat => repeated_last(sealed(s, false, false, false)),
        TokenView::RepeatTwoMeasures => repeated_two(s),
        TokenView::Squeeze => Ok(ParserView { squeezed: true, ..s }),
        TokenView::Unsqueeze => Ok(ParserView { squeezed: false, ..s }),
        TokenView::SectionMarker(label) => Ok(
            marked(
                s,
                MarkerView::SectionMarker(label),
                WrittenElementView::SectionMarker(label),
            ),
        ),
        TokenView::NumberedEnding(label) => Ok(
            marked(
                s,
                MarkerView::NumberedEnding(label),
                WrittenElementView::NumberedEnding(label),
            ),
        ),
        TokenView::TimeSignature(top, bottom) => Ok(
            ParserView {
                signature: TimeSignature { top, bottom },
                ..written(s, WrittenElementView::TimeSignature(TimeSignature { top, bottom }))
            },
        ),
        TokenView::Coda => Ok(written(s, WrittenElementView::Coda)),
        TokenView::Segno => Ok(written(s, WrittenElementView::Segno)),
        TokenView::Fermata => Ok(written(s, WrittenElementView::Fermata)),
        TokenView::Comment(_) => Ok(s),
        TokenView::Blank => Ok(s),
        TokenView::Comma => Ok(s),
        TokenView::Space => Ok(s),
        TokenView::VerticalSpace => Ok(s),
        TokenView::PauseSlash => Ok(s),
        TokenView::EndingMeasure => Ok(s),
    }
}

/// The state after the tokens `tokens`, read in order from the state `s`,
/// or the first error met.
pub open spec fn run(s: ParserView, tokens: Seq<TokenView>) -> Result<ParserView, SemanticError>
    decreases tokens.len(),
{
    if tokens.len() == 0 {
        Ok(s)
    } else {
        match step(s, tokens[0]) {
            Ok(next) => run(next, tokens.skip(1)),
            Err(e) => Err(e),
        }
    }
}

/// Whether some beat slot of `bar` holds a chord.
pub open spec fn has_chord(bar: BarView) -> bool {
    exists|i: int| 0 <= i < bar.counts.len() && #[trigger] bar.counts[i] is Chord
}

/// The index of the first bar from `i` on that opens a repeat.
pub open spec fn repeat_start_from(bars: Seq<BarView>, i: int) -> Option<usize>
    decreases bars.len() - i,
{
    if i < 0 || i >= bars.len() {
        None
    } else if bars[i].repeat_start {
        Some(i as usize)
    } else {
        repeat_start_from(bars, i + 1)
    }
}

/// The music read when the tokens end in state `s`: an open bar that holds
/// a chord is closed, an open bar without one is dropped.
pub open spec fn finished(s: ParserView) -> MusicView {
    let done = if s.current is Some && has_chord(s.current.unwrap()) {
        sealed(s, false, false, false)
    } else {
        s
    };
    MusicView {
        raw: Seq::empty(),
        bars: done.bars,
        written_bars: done.written_bars,
        repeat_start: repeat_start_from(done.bars, 0),
    }
}

/// The music that the tokens `tokens` describe, or the first error in them.
pub open spec fn assemble(tokens: Seq<TokenView>) -> Result<MusicView, SemanticError> {
    match run(start(), tokens) {
        Ok(s) => Ok(finished(s)),
        Err(e) => Err(e),
    }
}


/// Whether `r` is the exact counterpart of the result `m` in the model.
pub open spec fn agrees(r: Result<Parser, SemanticError>, m: Result<ParserView, SemanticError>)
    -> bool {
    match r {
        Ok(p) => m == Ok::<ParserView, SemanticError>(p@),
        Err(e) => m == Err::<ParserView, SemanticError>(e),
    }
}

/// Whether some beat slot of `counts` holds a chord.
fn holds_chord(counts: &Vec<CountElement>) -> (b: bool)
    ensures
        b == exists|i: int| 0 <= i < counts@.len() && #[trigger] count_views(counts@)[i] is Chord,
{
    let mut i: usize = 0;
    while i < counts.len()
        invariant
            i <= counts.len(),
            forall|k: int| 0 <= k < i ==> !(#[trigger] count_views(counts@)[k] is Chord),
        decreases counts.len() - i,
    {
        match &counts[i] {
            CountElement::Chord(_, _) => {
                assert(count_views(counts@)[i as int] is Chord);
                return true;
            },
            CountElement::Empty => {},
        }
        i += 1;
    }
    false
}

/// The index of the first bar that opens a repeat.
fn find_repeat_start(bars: &Vec<Bar>) -> (r: Option<usize>)
    ensures
        r == repeat_start_from(bar_views(bars@), 0),
{
    let mut i: usize = 0;
    while i < bars.len()
        invariant
            i <= bars.len(),
            repeat_start_from(bar_views(bars@), 0) == repeat_start_from(bar_views(bars@), i as int),
        decreases bars.len() - i,
    {
        if bars[i].repeat_start {
            return Some(i);
        }
        i += 1;
    }
    None
}

impl Parser {
    /// The state before the first token.
    pub fn new() -> (p: Parser)
        ensures
            p@ == start(),
    {
        let p = Parser {
            bars: Vec::new(),
            written_bars: Vec::new(),
            current: None,
            cursor: 0,
            anchor: None,
            signature: TimeSignature { top: 4, bottom: 4 },
            squeezed: false,
            markers: Vec::new(),
            page: WrittenBar::new(),
        };
        assert(bar_views(p.bars@) =~= Seq::<BarView>::empty());
        assert(written_bar_views(p.written_bars@) =~= Seq::<WrittenBarView>::empty());
        assert(marker_views(p.markers@) =~= Seq::<MarkerView>::empty());
        p
    }

    /// Writes `e` at the end of the page.
    fn write(self, e: WrittenElement) -> (r: Parser)
        ensures
            r@ == written(self@, e@),
    {
        let mut next = self;
        let ghost before = next.page.elements@;
        next.page.elements.push(e);
        assert(element_views(next.page.elements@) =~= element_views(before).push(e@));
        next
    }

    /// Closes the open bar, if there is one, at a bar line with the given
    /// flags.
    fn seal(self, repeat_end: bool, double_end: bool, final_bar: bool) -> (r: Parser)
        ensures
            r@ == sealed(self@, repeat_end, double_end, final_bar),
    {
        let Parser {
            mut bars,
            mut written_bars,
            current,
            cursor,
            anchor,
            signature,
            squeezed,
            mut markers,
            page,
        } = self;
        match current {
            None => Parser {
                bars,
                written_bars,
                current: None,
                cursor,
                anchor,
                signature,
                squeezed,
                markers,
                page,
            },
            Some(bar) => {
                let ghost old_bars = bars@;
                let ghost old_written = written_bars@;
                let ghost bar_markers = bar.markers@;
                let ghost new_markers = markers@;
                let mut all_markers = bar.markers;
                all_markers.append(&mut markers);
                assert(marker_views(all_markers@) =~= marker_views(bar_markers) + marker_views(
                    new_markers,
                ));
                let closed = Bar {
                    double_start: bar.double_start || page.double_start,
                    double_end: bar.double_end || double_end,
                    repeat_start: bar.repeat_start || page.repeat_start,
                    repeat_end: bar.repeat_end || repeat_end,
                    final_bar: bar.final_bar || final_bar,
                    markers: all_markers,
                    counts: bar.counts,
                };
                let written = WrittenBar {
                    repeat_start: page.repeat_start,
                    repeat_end,
                    double_start: page.double_start,
                    double_end,
                    elements: page.elements,
                };
                let ghost closed_view = closed@;
                let ghost written_view = written@;
                bars.push(closed);
                written_bars.push(written);
                assert(bar_views(bars@) =~= bar_views(old_bars).push(closed_view));
                assert(written_bar_views(written_bars@) =~= written_bar_views(old_written).push(
                    written_view,
                ));
                assert(marker_views(markers@) =~= Seq::<MarkerView>::empty());
                Parser {
                    bars,
                    written_bars,
                    current: None,
                    cursor: 0,
                    anchor: None,
                    signature,
                    squeezed,
                    markers,
                    page: WrittenBar::new(),
                }
            },
        }
    }

    /// Writes the chord `c` of width `w` on the page and places it in the
    /// open bar, opening one where none is open, if the bar has a slot left.
    fn place(self, c: Chord, w: Width) -> (r: Parser)
        ensures
            r@ == placed(self@, c@, w),
    {
        let Parser {
            bars,
            written_bars,
            current,
            cursor,
            anchor,
            signature,
            squeezed,
            markers,
            page,
        } = self;
        let (mut bar, at) = match current {
            Some(bar) => (bar, cursor),
            None => (Bar::new(signature.top as usize), 0),
        };
        let n = bar.counts.len();
        let width = match w {
            Width::Unknown => if squeezed {
                Width::Narrow
            } else {
                Width::Wide
            },
            Width::Wide => Width::Wide,
            Width::Narrow => Width::Narrow,
        };
        if at >= n {
            let state = Parser {
                bars,
                written_bars,
                current: Some(bar),
                cursor: n,
                anchor: None,
                signature,
                squeezed,
                markers,
                page,
            };
            return state.write(WrittenElement::Chord(c, width));
        }
        let slots: usize = match width {
            Width::Narrow => 1,
            _ => 2,
        };
        let ghost before = bar.counts@;
        let copy = c.clone();
        let element = CountElement::Chord(c, Vec::new());
        assert(element@ == CountElementView::Chord(c@, Seq::<ChordView>::empty())) by {
            assert(chord_views(Seq::<Chord>::empty()) =~= Seq::<ChordView>::empty());
        }
        bar.counts.set(at, element);
        assert(count_views(bar.counts@) =~= count_views(before).update(
            at as int,
            CountElementView::Chord(c@, Seq::<ChordView>::empty()),
        ));
        let next = if n - at >= slots {
            at + slots
        } else {
            n
        };
        let state = Parser {
            bars,
            written_bars,
            current: Some(bar),
            cursor: next,
            anchor: Some(at),
            signature,
            squeezed,
            markers,
            page,
        };
        state.write(WrittenElement::Chord(copy, width))
    }

    /// Layers the alternate chord `c` above the chord placed last in the open
    /// bar, if there is one.
    fn layer(self, c: Chord) -> (r: Parser)
        ensures
            r@ == layered(self@, c@),
    {
        let Parser {
            bars,
            written_bars,
            current,
            cursor,
            anchor,
            signature,
            squeezed,
            markers,
            page,
        } = self;
        let current = match (current, anchor) {
            (Some(mut bar), Some(a)) => {
                if a < bar.counts.len() {
                    let ghost before = bar.counts@;
                    let layered = match &bar.counts[a] {
                        CountElement::Chord(primary, alternates) => {
                            let mut above = clone_chords(alternates);
                            let ghost below = above@;
                            above.push(c);
                            assert(chord_views(above@) =~= chord_views(below).push(c@));
                            Some(CountElement::Chord(primary.clone(), above))
                        },
                        CountElement::Empty => None,
                    };
                    assert(count_views(before)[a as int] == before[a as int]@);
                    match layered {
                        Some(element) => {
                            let ghost ev = element@;
                            bar.counts.set(a, element);
                            assert(count_views(bar.counts@) =~= count_views(before).update(
                                a as int,
                                ev,
                            ));
                        },
                        None => {},
                    }
                }
                Some(bar)
            },
            (current, _) => current,
        };
        Parser {
            bars,
            written_bars,
            current,
            cursor,
            anchor,
            signature,
            squeezed,
            markers,
            page,
        }
    }

    /// Keeps the marker `m` for the bar that is closed next and writes `e`
    /// on the page.
    fn mark(self, m: Marker, e: WrittenElement) -> (r: Parser)
        ensures
            r@ == marked(self@, m@, e@),
    {
        let mut next = self;
        let ghost before = next.markers@;
        next.markers.push(m);
        assert(marker_views(next.markers@) =~= marker_views(before).push(m@));
        next.write(e)
    }

    /// Opens a copy of the bar closed last.
    fn repeat_last(self) -> (r: Result<Parser, SemanticError>)
        ensures
            agrees(r, repeated_last(self@)),
    {
        let n = self.bars.len();
        if n == 0 {
            return Err(SemanticError::NoPriorBar);
        }
        let copy = self.bars[n - 1].clone();
        assert(bar_views(self.bars@).last() == self.bars@[n - 1]@);
        let mut next = self;
        next.current = Some(copy);
        next.cursor = 0;
        next.anchor = None;
        Ok(next.write(WrittenElement::RepeatMeasure))
    }

    /// Closes a copy of the last closed bar but one and opens a copy of the
    /// bar closed last.
    fn repeat_two(self) -> (r: Result<Parser, SemanticError>)
        ensures
            agrees(r, repeated_two(self@)),
    {
        let n = self.bars.len();
        if n < 2 {
            return Err(SemanticError::InsufficientHistory);
        }
        let first = self.bars[n - 2].clone();
        let second = self.bars[n - 1].clone();
        assert(bar_views(self.bars@).last() == self.bars@[n - 1]@);
        assert(bar_views(self.bars@)[n - 2] == self.bars@[n - 2]@);
        let mut half: Vec<WrittenElement> = Vec::new();
        half.push(WrittenElement::RepeatTwoMeasures);
        let written = WrittenBar {
            repeat_start: false,
            repeat_end: false,
            double_start: false,
            double_end: false,
            elements: half,
        };
        assert(written@ == plain_page(seq![WrittenElementView::RepeatTwoMeasures])) by {
            assert(element_views(written.elements@) =~= seq![
                WrittenElementView::RepeatTwoMeasures,
            ]);
        }
        let mut next = self;
        let ghost old_bars = next.bars@;
        let ghost old_written = next.written_bars@;
        let ghost first_view = first@;
        let ghost written_view = written@;
        next.bars.push(first);
        next.written_bars.push(written);
        assert(bar_views(next.bars@) =~= bar_views(old_bars).push(first_view));
        assert(written_bar_views(next.written_bars@) =~= written_bar_views(old_written).push(
            written_view,
        ));
        next.current = Some(second);
        next.cursor = 0;
        next.anchor = None;
        Ok(next.write(WrittenElement::RepeatTwoMeasures))
    }

    /// Reads one token: the state after it, or the error it is.
    pub fn step(self, token: &Token) -> (r: Result<Parser, SemanticError>)
        ensures
            agrees(r, step(self@, token@)),
    {
        match token {
            Token::Chord(c, w) => Ok(self.place(c.clone(), *w)),
            Token::AlternateChord(c) => Ok(self.layer(c.clone())),
            Token::Bar => Ok(self.seal(false, false, false)),
            Token::FinalBar => Ok(self.seal(false, false, true)),
            Token::DoubleBarEnd => Ok(self.seal(false, true, false)),
            Token::RepeatEnd => Ok(self.seal(true, false, false)),
            Token::DoubleBarStart => {
                let mut next = self.seal(false, false, false);
                next.page.double_start = true;
                Ok(next)
            },
            Token::RepeatStart => {
                let mut next = self;
                next.page.repeat_start = true;
                Ok(next)
            },
            Token::RepeatMeasure => self.repeat_last(),
            Token::BarAndRepeat => self.seal(false, false, false).repeat_last(),
            Token::RepeatTwoMeasures => self.repeat_two(),
            Token::Squeeze => {
                let mut next = self;
                next.squeezed = true;
                Ok(next)
            },
            Token::Unsqueeze => {
                let mut next = self;
                next.squeezed = false;
                Ok(next)
            },
            Token::SectionMarker(label) => Ok(
                self.mark(
                    Marker::SectionMarker(label.clone()),
                    WrittenElement::SectionMarker(label.clone()),
                ),
            ),
            Token::NumberedEnding(label) => Ok(
                self.mark(
                    Marker::NumberedEnding(label.clone()),
                    WrittenElement::NumberedEnding(label.clone()),
                ),
            ),
            Token::TimeSignature(top, bottom) => {
                let signature = TimeSignature { top: *top, bottom: *bottom };
                let mut next = self;
                next.signature = signature;
                Ok(next.write(WrittenElement::TimeSignature(signature)))
            },
            Token::Coda => Ok(self.write(WrittenElement::Coda)),
            Token::Segno => Ok(self.write(WrittenElement::Segno)),
            Token::Fermata => Ok(self.write(WrittenElement::Fermata)),
            Token::Comment(_) => Ok(self),
            Token::Blank => Ok(self),
            Token::Comma => Ok(self),
            Token::Space => Ok(self),
            Token::VerticalSpace => Ok(self),
            Token::PauseSlash => Ok(self),
            Token::EndingMeasure => Ok(self),
        }
    }

    /// Ends the reading: closes an open bar that holds a chord and gives the
    /// music read, with an empty raw text.
    pub fn finish(self) -> (music: Music)
        ensures
            music@ == finished(self@),
    {
        let close = match &self.current {
            Some(bar) => holds_chord(&bar.counts),
            None => false,
        };
        let done = if close {
            self.seal(false, false, false)
        } else {
            self
        };
        let repeat_start = find_repeat_start(&done.bars);
        Music {
            raw: String::new(),
            bars: done.bars,
            written_bars: done.written_bars,
            repeat_start,
        }
    }
}

/// Assembles the bars that `tokens` describe. The text the music keeps is
/// empty.
pub fn parse(tokens: &Vec<Token>) -> (r: Result<Music, SemanticError>)
    ensures
        match r {
            Ok(music) => assemble(token_views(tokens@)) == Ok::<MusicView, SemanticError>(music@),
            Err(e) => assemble(token_views(tokens@)) == Err::<MusicView, SemanticError>(e),
        },
{
    let ghost all = token_views(tokens@);
    let mut state = Parser::new();
    let mut i: usize = 0;
    assert(all.skip(0) =~= all);
    while i < tokens.len()
        invariant
            i <= tokens.len(),
            all == token_views(tokens@),
            run(start(), all) == run(state@, all.skip(i as int)),
        decreases tokens.len() - i,
    {
        assert(all.skip(i as int)[0] == tokens@[i as int]@);
        assert(all.skip(i as int).skip(1) =~= all.skip(i + 1));
        match state.step(&tokens[i]) {
            Ok(next) => {
                state = next;
            },
            Err(e) => {
                return Err(e);
            },
        }
        i += 1;
    }
    assert(all.skip(i as int) =~= Seq::<TokenView>::empty());
    Ok(state.finish())
}

/// The music that the descrambled text `text` of a chart describes: the
/// bars assembled from its tokens, with `text` kept as the raw text. An
/// error of the tokens comes before an error of the bars.
pub open spec fn music_of(text: Seq<char>) -> Result<MusicView, DecodeError> {
    match lex(text) {
        Err(e) => Err(DecodeError::Format(e)),
        Ok(tokens) => match assemble(tokens) {
            Err(e) => Err(DecodeError::Semantic(e)),
            Ok(music) => Ok(MusicView { raw: text, ..music }),
        },
    }
}

/// Whether `r` is the exact counterpart of the result `m` in the model.
pub open spec fn music_agrees(r: Result<Music, DecodeError>, m: Result<MusicView, DecodeError>)
    -> bool {
    match r {
        Ok(music) => m == Ok::<MusicView, DecodeError>(music@),
        Err(e) => m == Err::<MusicView, DecodeError>(e),
    }
}

/// Reads the music from the characters of a descrambled chart.
pub fn parse_music_chars(text: &Vec<char>) -> (r: Result<Music, DecodeError>)
    ensures
        music_agrees(r, music_of(text@)),
{
    let tokens = match tokenize_chars(text) {
        Ok(tokens) => tokens,
        Err(e) => {
            return Err(DecodeError::Format(e));
        },
    };
    match parse(&tokens) {
        Ok(music) => Ok(
            Music {
                raw: from_chars(text),
                bars: music.bars,
                written_bars: music.written_bars,
                repeat_start: music.repeat_start,
            },
        ),
        Err(e) => Err(DecodeError::Semantic(e)),
    }
}

/// Reads the music from the descrambled text of a chart.
pub fn parse_music(text: &str) -> (r: Result<Music, DecodeError>)
    ensures
        music_agrees(r, music_of(text@)),
{
    let chars = to_chars(text);
    parse_music_chars(&chars)
}


/// Reading one run of tokens after another is reading the two as one: the
/// second run starts in the state the first ends in, and an error in the
/// first is the error of both.
pub proof fn lemma_run_concat(s: ParserView, first: Seq<TokenView>, second: Seq<TokenView>)
    ensures
        run(s, first + second) == match run(s, first) {
            Ok(middle) => run(middle, second),
            Err(e) => Err(e),
        },
    decreases first.len(),
{
    if first.len() == 0 {
        assert(first + second =~= second);
    } else {
        assert((first + second)[0] == first[0]);
        assert((first + second).skip(1) =~= first.skip(1) + second);
        match step(s, first[0]) {
            Ok(next) => lemma_run_concat(next, first.skip(1), second),
            Err(_) => {},
        }
    }
}

/// Whether the token `t` is a repeat sign: the one-measure sign, alone or
/// with a bar line, or the two-measure sign.
pub open spec fn is_repeat_sign(t: TokenView) -> bool {
    t is RepeatMeasure || t is BarAndRepeat || t is RepeatTwoMeasures
}

/// Only a repeat sign can be an error: any other token is read in every
/// state. A one-measure sign fails with `NoPriorBar` and nothing else, a
/// two-measure sign with `InsufficientHistory` and nothing else.
pub proof fn lemma_step_errors(s: ParserView, t: TokenView)
    ensures
        !is_repeat_sign(t) ==> step(s, t) is Ok,
        step(s, t) matches Err(e) ==> {
            &&& (t is RepeatMeasure || t is BarAndRepeat) ==> e == SemanticError::NoPriorBar
            &&& t is RepeatTwoMeasures ==> e == SemanticError::InsufficientHistory
        },
{
}

/// Tokens without a repeat sign are read without error from every state,
/// however many chords stand in a bar.
pub proof fn lemma_run_without_repeats(s: ParserView, tokens: Seq<TokenView>)
    requires
        forall|i: int| 0 <= i < tokens.len() ==> !is_repeat_sign(#[trigger] tokens[i]),
    ensures
        run(s, tokens) is Ok,
    decreases tokens.len(),
{
    if tokens.len() > 0 {
        lemma_step_errors(s, tokens[0]);
        assert(!is_repeat_sign(tokens[0]));
        assert forall|i: int| 0 <= i < tokens.skip(1).len() implies !is_repeat_sign(
            #[trigger] tokens.skip(1)[i],
        ) by {
            assert(tokens.skip(1)[i] == tokens[i + 1]);
        }
        lemma_run_without_repeats(step(s, tokens[0]).unwrap(), tokens.skip(1));
    }
}

/// Reading tokens fails only at a repeat sign that has too few bars before
/// it: an error is `NoPriorBar` or `InsufficientHistory`, and some token is
/// a repeat sign.
pub proof fn lemma_run_errors(s: ParserView, tokens: Seq<TokenView>)
    ensures
        run(s, tokens) matches Err(e) ==> {
            &&& e is NoPriorBar || e is InsufficientHistory
            &&& exists|i: int| 0 <= i < tokens.len() && is_repeat_sign(#[trigger] tokens[i])
        },
    decreases tokens.len(),
{
    if tokens.len() > 0 {
        lemma_step_errors(s, tokens[0]);
        match step(s, tokens[0]) {
            Ok(next) => {
                lemma_run_errors(next, tokens.skip(1));
                if run(next, tokens.skip(1)) is Err {
                    let i = choose|i: int|
                        0 <= i < tokens.skip(1).len() && is_repeat_sign(
                            #[trigger] tokens.skip(1)[i],
                        );
                    assert(tokens.skip(1)[i] == tokens[i + 1]);
                    assert(is_repeat_sign(tokens[i + 1]));
                }
            },
            Err(_) => {
                assert(is_repeat_sign(tokens[0]));
            },
        }
    }
}

/// Tokens are refused only for a repeat sign without the bars it repeats.
/// Every error is `NoPriorBar` or `InsufficientHistory`, and tokens without
/// a repeat sign always describe music.
pub proof fn lemma_only_repeats_fail(tokens: Seq<TokenView>)
    ensures
        assemble(tokens) matches Err(e) ==> e is NoPriorBar || e is InsufficientHistory,
        (forall|i: int| 0 <= i < tokens.len() ==> !is_repeat_sign(#[trigger] tokens[i]))
            ==> assemble(tokens) is Ok,
{
    lemma_run_errors(start(), tokens);
    if forall|i: int| 0 <= i < tokens.len() ==> !is_repeat_sign(#[trigger] tokens[i]) {
        lemma_run_without_repeats(start(), tokens);
    }
}

/// Text that tokenizes is refused only for a repeat sign without the bars it
/// repeats: the only errors of the bars are `NoPriorBar` and
/// `InsufficientHistory`, and text whose tokens hold no repeat sign is read
/// as music.
pub proof fn lemma_music_errors(text: Seq<char>)
    ensures
        music_of(text) matches Err(DecodeError::Semantic(e)) ==> e is NoPriorBar
            || e is InsufficientHistory,
        lex(text) matches Ok(tokens) ==> ((forall|i: int|
            0 <= i < tokens.len() ==> !is_repeat_sign(#[trigger] tokens[i])) ==> music_of(text)
            is Ok),
{
    match lex(text) {
        Ok(tokens) => lemma_only_repeats_fail(tokens),
        Err(_) => {},
    }
}

/// Whether the token `t` opens a bar where none is open: a chord or one of
/// the repeat signs.
pub open spec fn opens_bar(t: TokenView) -> bool {
    t is Chord || t is RepeatMeasure || t is BarAndRepeat || t is RepeatTwoMeasures
}

/// Whether the token `t` is a bar line, which closes the open bar.
pub open spec fn closes_bar(t: TokenView) -> bool {
    t is Bar || t is FinalBar || t is DoubleBarEnd || t is RepeatEnd || t is DoubleBarStart
        || t is BarAndRepeat
}

/// The number of bar lines among `tokens`.
pub open spec fn bar_lines(tokens: Seq<TokenView>) -> nat
    decreases tokens.len(),
{
    if tokens.len() == 0 {
        0
    } else {
        (if closes_bar(tokens[0]) {
            1nat
        } else {
            0nat
        }) + bar_lines(tokens.skip(1))
    }
}

/// Tokens that open no bar are read without error from a state in which no
/// bar is open, and they close no bar.
pub proof fn lemma_nothing_opened(s: ParserView, tokens: Seq<TokenView>)
    requires
        s.current is None,
        forall|i: int| 0 <= i < tokens.len() ==> !opens_bar(#[trigger] tokens[i]),
    ensures
        run(s, tokens) matches Ok(end) && end.current is None && end.bars == s.bars,
    decreases tokens.len(),
{
    if tokens.len() > 0 {
        assert(!opens_bar(tokens[0]));
        let next = step(s, tokens[0]).unwrap();
        assert forall|i: int| 0 <= i < tokens.skip(1).len() implies !opens_bar(
            #[trigger] tokens.skip(1)[i],
        ) by {
            assert(tokens.skip(1)[i] == tokens[i + 1]);
        }
        lemma_nothing_opened(next, tokens.skip(1));
    }
}

/// A one-measure repeat sign that stands before any token that opens a bar
/// is an error: there is no bar for it to repeat. Whatever follows the sign,
/// the tokens are refused with `NoPriorBar`.
pub proof fn lemma_repeat_measure_needs_bar(before: Seq<TokenView>, after: Seq<TokenView>)
    requires
        forall|i: int| 0 <= i < before.len() ==> !opens_bar(#[trigger] before[i]),
    ensures
        assemble(before + seq![TokenView::RepeatMeasure] + after) == Err::<
            MusicView,
            SemanticError,
        >(SemanticError::NoPriorBar),
{
    let sign = seq![TokenView::RepeatMeasure];
    lemma_nothing_opened(start(), before);
    let s = run(start(), before).unwrap();
    lemma_run_concat(start(), before, sign + after);
    lemma_run_concat(s, sign, after);
    assert(sign.skip(1) =~= Seq::<TokenView>::empty());
    assert(run(s, sign) == Err::<ParserView, SemanticError>(SemanticError::NoPriorBar));
    assert(before + sign + after =~= before + (sign + after));
}

/// Reading tokens closes at most one bar for each bar line, as long as the
/// bars closed before and the bar lines together are fewer than two: a
/// two-measure repeat sign, which closes a bar without a bar line, is an
/// error until then.
pub proof fn lemma_bars_closed(s: ParserView, tokens: Seq<TokenView>)
    requires
        s.bars.len() + bar_lines(tokens) < 2,
    ensures
        run(s, tokens) matches Ok(end) ==> end.bars.len() <= s.bars.len() + bar_lines(tokens),
    decreases tokens.len(),
{
    if tokens.len() > 0 {
        match step(s, tokens[0]) {
            Ok(next) => {
                assert(next.bars.len() <= s.bars.len() + (if closes_bar(tokens[0]) {
                    1nat
                } else {
                    0nat
                }));
                lemma_bars_closed(next, tokens.skip(1));
            },
            Err(_) => {},
        }
    }
}

/// A two-measure repeat sign that stands after fewer than two bar lines is
/// an error: fewer than two bars are closed for it to repeat. Where the
/// tokens before the sign are read without error, the tokens are refused
/// with `InsufficientHistory`, whatever follows the sign; an error before
/// the sign stays the error.
pub proof fn lemma_repeat_two_needs_two_bars(before: Seq<TokenView>, after: Seq<TokenView>)
    requires
        bar_lines(before) < 2,
    ensures
        assemble(before + seq![TokenView::RepeatTwoMeasures] + after) == match run(
            start(),
            before,
        ) {
            Ok(_) => Err::<MusicView, SemanticError>(SemanticError::InsufficientHistory),
            Err(e) => Err(e),
        },
{
    let sign = seq![TokenView::RepeatTwoMeasures];
    lemma_bars_closed(start(), before);
    lemma_run_concat(start(), before, sign + after);
    assert(before + sign + after =~= before + (sign + after));
    match run(start(), before) {
        Ok(s) => {
            lemma_run_concat(s, sign, after);
            assert(sign.skip(1) =~= Seq::<TokenView>::empty());
            assert(run(s, sign) == Err::<ParserView, SemanticError>(
                SemanticError::InsufficientHistory,
            ));
        },
        Err(_) => {},
    }
}

/// A chord that opens a bar gives the bar as many beat slots as the time
/// signature has beats, four under 4/4, and stands in the first of them.
/// While chords are wide the cursor then moves on by two slots; after a
/// squeeze it moves on by one, half as far.
pub proof fn lemma_slot_sizing(s: ParserView, c: ChordView)
    requires
        s.current is None,
        s.signature.top >= 2,
    ensures
        step(s, TokenView::Chord(c, Width::Unknown)) matches Ok(next) && next.current matches Some(
            bar,
        ) && bar.counts.len() == s.signature.top && bar.counts[0] == CountElementView::Chord(
            c,
            Seq::empty(),
        ) && next.cursor == (if s.squeezed {
            1nat
        } else {
            2nat
        }),
        run(s, seq![TokenView::Unsqueeze, TokenView::Chord(c, Width::Unknown)]) matches Ok(next)
            && next.cursor == 2,
        run(s, seq![TokenView::Squeeze, TokenView::Chord(c, Width::Unknown)]) matches Ok(next)
            && next.cursor == 1,
{
    let chord = TokenView::Chord(c, Width::Unknown);
    let wide = seq![TokenView::Unsqueeze, chord];
    let narrow = seq![TokenView::Squeeze, chord];
    assert(wide.skip(1) =~= seq![chord]);
    assert(narrow.skip(1) =~= seq![chord]);
    assert(seq![chord].skip(1) =~= Seq::<TokenView>::empty());
    reveal_with_fuel(run, 3);
}

/// A one-measure repeat sign and a plain bar line close an exact copy of the
/// bar closed last, where no bar is open and no flag or marker waits for the
/// bar that is closed next. A bar line with a repeat sign, followed by a
/// plain bar line, does the same.
pub proof fn lemma_repeat_duplicates(s: ParserView)
    requires
        s.current is None,
        s.bars.len() > 0,
        s.markers.len() == 0,
        !s.page.repeat_start,
        !s.page.double_start,
    ensures
        run(s, seq![TokenView::RepeatMeasure, TokenView::Bar]) matches Ok(end) && end.bars
            == s.bars.push(s.bars.last()),
        run(s, seq![TokenView::BarAndRepeat, TokenView::Bar]) matches Ok(end) && end.bars
            == s.bars.push(s.bars.last()),
{
    let bar = s.bars.last();
    let line = seq![TokenView::Bar];
    assert(bar.markers + s.markers =~= bar.markers);
    assert(seq![TokenView::RepeatMeasure, TokenView::Bar].skip(1) =~= line);
    assert(seq![TokenView::BarAndRepeat, TokenView::Bar].skip(1) =~= line);
    assert(line.skip(1) =~= Seq::<TokenView>::empty());
    reveal_with_fuel(run, 3);
}

/// Whether `bar` holds a chord, or has no beat slot to hold one, as a bar
/// opened under a time signature of no beats.
pub open spec fn filled(bar: BarView) -> bool {
    has_chord(bar) || bar.counts.len() == 0
}

/// Whether the state `s` is one that reading tokens arrives at. There is a
/// written bar for every closed bar. Every closed bar that has beat slots
/// holds a chord, and so does the open bar. The cursor lies in the open bar
/// or at its end, and the chord placed last stands where the state says.
/// While no bar is open the cursor is at the first slot and no chord is
/// placed last.
pub open spec fn well_formed(s: ParserView) -> bool {
    &&& s.bars.len() == s.written_bars.len()
    &&& forall|i: int| 0 <= i < s.bars.len() ==> filled(#[trigger] s.bars[i])
    &&& match s.current {
        Some(bar) => {
            &&& filled(bar)
            &&& s.cursor <= bar.counts.len()
            &&& s.anchor matches Some(a) ==> a < bar.counts.len() && bar.counts[a as int] is Chord
        },
        None => s.cursor == 0 && s.anchor is None,
    }
}

/// A bar keeps holding a chord when one of its slots is given a chord.
proof fn lemma_chord_stays(bar: BarView, i: int, element: CountElementView)
    requires
        0 <= i < bar.counts.len(),
        element is Chord,
    ensures
        has_chord(BarView { counts: bar.counts.update(i, element), ..bar }),
{
    assert(bar.counts.update(i, element)[i] is Chord);
}

/// Every token takes a well-formed state to a well-formed state and keeps
/// the bars closed before it as they are. No token but a repeat sign changes
/// the number of slots of a bar that stays open: a chord never does, whether
/// the bar has a slot left for it or not.
pub proof fn lemma_step_well_formed(s: ParserView, t: TokenView)
    requires
        well_formed(s),
    ensures
        step(s, t) matches Ok(next) ==> {
            &&& well_formed(next)
            &&& s.bars.len() <= next.bars.len()
            &&& next.bars.take(s.bars.len() as int) == s.bars
            &&& next.written_bars.take(s.written_bars.len() as int) == s.written_bars
            &&& (next.bars.len() == s.bars.len() && s.current is Some && !is_repeat_sign(t)
                ==> next.current is Some && next.current.unwrap().counts.len()
                == s.current.unwrap().counts.len())
        },
{
    match step(s, t) {
        Ok(next) => {
            assert(next.bars.take(s.bars.len() as int) =~= s.bars);
            assert(next.written_bars.take(s.written_bars.len() as int) =~= s.written_bars);
            match t {
                TokenView::Chord(c, w) => {
                    let bar = match s.current {
                        Some(bar) => bar,
                        None => empty_bar(s.signature.top as nat),
                    };
                    let cursor = if s.current is Some {
                        s.cursor
                    } else {
                        0
                    };
                    if cursor < bar.counts.len() {
                        lemma_chord_stays(
                            bar,
                            cursor as int,
                            CountElementView::Chord(c, Seq::empty()),
                        );
                    }
                },
                TokenView::AlternateChord(c) => {
                    if s.current is Some && s.anchor is Some {
                        let bar = s.current.unwrap();
                        let a = s.anchor.unwrap();
                        match bar.counts[a as int] {
                            CountElementView::Chord(primary, alternates) => {
                                lemma_chord_stays(
                                    bar,
                                    a as int,
                                    CountElementView::Chord(primary, alternates.push(c)),
                                );
                            },
                            CountElementView::Empty => {},
                        }
                    }
                },
                _ => {},
            }
        },
        Err(_) => {},
    }
}

/// Reading tokens takes a well-formed state to a well-formed state and
/// keeps the bars closed before as they are: a closed bar never changes.
pub proof fn lemma_run_well_formed(s: ParserView, tokens: Seq<TokenView>)
    requires
        well_formed(s),
    ensures
        run(s, tokens) matches Ok(end) ==> {
            &&& well_formed(end)
            &&& s.bars.len() <= end.bars.len()
            &&& end.bars.take(s.bars.len() as int) == s.bars
            &&& end.written_bars.take(s.written_bars.len() as int) == s.written_bars
        },
    decreases tokens.len(),
{
    if tokens.len() == 0 {
        assert(s.bars.take(s.bars.len() as int) =~= s.bars);
        assert(s.written_bars.take(s.written_bars.len() as int) =~= s.written_bars);
    } else {
        lemma_step_well_formed(s, tokens[0]);
        match step(s, tokens[0]) {
            Ok(next) => {
                lemma_run_well_formed(next, tokens.skip(1));
                match run(next, tokens.skip(1)) {
                    Ok(end) => {
                        assert(end.bars.take(s.bars.len() as int) =~= next.bars.take(
                            s.bars.len() as int,
                        ));
                        assert(end.written_bars.take(s.written_bars.len() as int)
                            =~= next.written_bars.take(s.written_bars.len() as int));
                    },
                    Err(_) => {},
                }
            },
            Err(_) => {},
        }
    }
}

/// The music read from any tokens has a written bar for each of its bars,
/// and each of its bars that has beat slots holds a chord. A bar that is
/// open when the tokens end is dropped only if it has no beat slot.
pub proof fn lemma_music_well_formed(tokens: Seq<TokenView>)
    ensures
        assemble(tokens) matches Ok(music) ==> {
            &&& music.bars.len() == music.written_bars.len()
            &&& forall|i: int| 0 <= i < music.bars.len() ==> filled(#[trigger] music.bars[i])
        },
        run(start(), tokens) matches Ok(end) ==> (end.current matches Some(bar)
            && bar.counts.len() > 0 ==> finished(end) == finished(
            sealed(end, false, false, false),
        )),
{
    lemma_run_well_formed(start(), tokens);
    match run(start(), tokens) {
        Ok(end) => {
            lemma_step_well_formed(end, TokenView::Bar);
        },
        Err(_) => {},
    }
}

} // verus!
