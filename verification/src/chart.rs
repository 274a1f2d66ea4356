//! The parsed chart: bars of beat slots, the bars as they are written on the
//! page, and the music of a song that holds both.

use vstd::prelude::*;
use crate::text::{decimal_text, from_chars, write_decimal, write_str};
use crate::tokenize::Width;
use crate::types::{chord_text, chord_views, clone_chords, write_chord, Chord, ChordView};

verus! {

/// A time signature: `top` beats to the bar, each a note of value `bottom`.
#[derive(Debug, Clone, Copy, PartialEq, Eq, Structural)]
pub struct TimeSignature {
    pub top: u32,
    pub bottom: u32,
}

/// The text of a time signature: the two numbers with a slash between.
pub open spec fn time_signature_text(ts: TimeSignature) -> Seq<char> {
    decimal_text(ts.top as nat) + "/"@ + decimal_text(ts.bottom as nat)
}

/// Appends the text of `ts` to `out`.
pub fn write_time_signature(out: &mut Vec<char>, ts: TimeSignature)
    ensures
        final(out)@ == old(out)@ + time_signature_text(ts),
{
    write_decimal(out, ts.top);
    write_str(out, "/");
    write_decimal(out, ts.bottom);
}

impl TimeSignature {
    /// The two numbers with a slash between.
    pub fn to_text(&self) -> (s: String)
        ensures
            s@ == time_signature_text(*self),
    {
        let mut out: Vec<char> = Vec::new();
        write_time_signature(&mut out, *self);
        from_chars(&out)
    }
}

/// A mark that stands at the head of a bar.
#[derive(Debug, PartialEq, Eq)]
pub enum Marker {
    SectionMarker(String),
    NumberedEnding(String),
}

/// The mathematical value of a [`Marker`].
pub enum MarkerView {
    SectionMarker(Seq<char>),
    NumberedEnding(Seq<char>),
}

impl View for Marker {
    type V = MarkerView;

    open spec fn view(&self) -> MarkerView {
        match *self {
            Marker::SectionMarker(s) => MarkerView::SectionMarker(s@),
            Marker::NumberedEnding(s) => MarkerView::NumberedEnding(s@),
        }
    }
}

impl Clone for Marker {
    fn clone(&self) -> (r: Self)
        ensures
            r@ == self@,
    {
        match self {
            Marker::SectionMarker(s) => Marker::SectionMarker(s.clone()),
            Marker::NumberedEnding(s) => Marker::NumberedEnding(s.clone()),
        }
    }
}

/// The views of a sequence of markers, element by element.
pub open spec fn marker_views(markers: Seq<Marker>) -> Seq<MarkerView> {
    markers.map_values(|m: Marker| m@)
}

/// What one beat slot of a bar holds: nothing, or a chord with the alternate
/// chords layered above it.
#[derive(Debug, PartialEq, Eq)]
pub enum CountElement {
    Empty,
    Chord(Chord, Vec<Chord>),
}

/// The mathematical value of a [`CountElement`].
pub enum CountElementView {
    Empty,
    Chord(ChordView, Seq<ChordView>),
}

impl View for CountElement {
    type V = CountElementView;

    open spec fn view(&self) -> CountElementView {
        match *self {
            CountElement::Empty => CountElementView::Empty,
            CountElement::Chord(c, alternates) => CountElementView::Chord(
                c@,
                chord_views(alternates@),
            ),
        }
    }
}

impl Clone for CountElement {
    fn clone(&self) -> (r: Self)
        ensures
            r@ == self@,
    {
        match self {
            CountElement::Empty => CountElement::Empty,
            CountElement::Chord(c, alternates) => CountElement::Chord(
                c.clone(),
                clone_chords(alternates),
            ),
        }
    }
}

/// The views of a sequence of beat slots, element by element.
pub open spec fn count_views(counts: Seq<CountElement>) -> Seq<CountElementView> {
    counts.map_values(|c: CountElement| c@)
}

/// One thing that can stand in a bar, for display on its own.
#[derive(Debug, PartialEq, Eq)]
pub enum BarElement {
    SectionMarker(String),
    TimeSignature(TimeSignature),
    Chord(Chord),
    AlternateChord(Chord),
}

/// The mathematical value of a [`BarElement`].
pub enum BarElementView {
    SectionMarker(Seq<char>),
    TimeSignature(TimeSignature),
    Chord(ChordView),
    AlternateChord(ChordView),
}

impl View for BarElement {
    type V = BarElementView;

    open spec fn view(&self) -> BarElementView {
        match *self {
            BarElement::SectionMarker(s) => BarElementView::SectionMarker(s@),
            BarElement::TimeSignature(ts) => BarElementView::TimeSignature(ts),
            BarElement::Chord(c) => BarElementView::Chord(c@),
            BarElement::AlternateChord(c) => BarElementView::AlternateChord(c@),
        }
    }
}

impl Clone for BarElement {
    fn clone(&self) -> (r: Self)
        ensures
            r@ == self@,
    {
        match self {
            BarElement::SectionMarker(s) => BarElement::SectionMarker(s.clone()),
            BarElement::TimeSignature(ts) => BarElement::TimeSignature(*ts),
            BarElement::Chord(c) => BarElement::Chord(c.clone()),
            BarElement::AlternateChord(c) => BarElement::AlternateChord(c.clone()),
        }
    }
}

/// The text of a bar element: a label or a time signature as it is, a
/// chord as its text, an alternate chord as its text in round brackets.
pub open spec fn bar_element_text(e: BarElementView) -> Seq<char> {
    match e {
        BarElementView::SectionMarker(s) => s,
        BarElementView::TimeSignature(ts) => time_signature_text(ts),
        BarElementView::Chord(c) => chord_text(c),
        BarElementView::AlternateChord(c) => "("@ + chord_text(c) + ")"@,
    }
}

impl BarElement {
    /// The text of the element.
    pub fn to_text(&self) -> (s: String)
        ensures
            s@ == bar_element_text(self@),
    {
        let mut out: Vec<char> = Vec::new();
        match self {
            BarElement::SectionMarker(s) => write_str(&mut out, s.as_str()),
            BarElement::TimeSignature(ts) => write_time_signature(&mut out, *ts),
            BarElement::Chord(c) => write_chord(&mut out, c),
            BarElement::AlternateChord(c) => {
                write_str(&mut out, "(");
                write_chord(&mut out, c);
                write_str(&mut out, ")");
            },
        }
        from_chars(&out)
    }
}

/// The chords that sound in one bar: a fixed number of beat slots, with the
/// marks at the head of the bar and the bar lines on either side.
#[derive(Debug, PartialEq, Eq)]
pub struct Bar {
    /// A double bar line opens the bar.
    pub double_start: bool,
    /// A double bar line closes the bar.
    pub double_end: bool,
    pub repeat_start: bool,
    pub repeat_end: bool,
    /// The final bar line closes the bar.
    pub final_bar: bool,
    pub markers: Vec<Marker>,
    pub counts: Vec<CountElement>,
}

/// The mathematical value of a [`Bar`].
pub struct BarView {
    pub double_start: bool,
    pub double_end: bool,
    pub repeat_start: bool,
    pub repeat_end: bool,
    pub final_bar: bool,
    pub markers: Seq<MarkerView>,
    pub counts: Seq<CountElementView>,
}

impl View for Bar {
    type V = BarView;

    open spec fn view(&self) -> BarView {
        BarView {
            double_start: self.double_start,
            double_end: self.double_end,
            repeat_start: self.repeat_start,
            repeat_end: self.repeat_end,
            final_bar: self.final_bar,
            markers: marker_views(self.markers@),
            counts: count_views(self.counts@),
        }
    }
}

/// The views of a sequence of bars, element by element.
pub open spec fn bar_views(bars: Seq<Bar>) -> Seq<BarView> {
    bars.map_values(|b: Bar| b@)
}

/// The bar of `n` empty beat slots, without marks, between plain bar lines.
pub open spec fn empty_bar(n: nat) -> BarView {
    BarView {
        double_start: false,
        double_end: false,
        repeat_start: false,
        repeat_end: false,
        final_bar: false,
        markers: Seq::empty(),
        counts: Seq::new(n, |i: int| CountElementView::Empty),
    }
}

/// A copy of each marker of `markers`, in order.
pub fn clone_markers(markers: &Vec<Marker>) -> (r: Vec<Marker>)
    ensures
        marker_views(r@) == marker_views(markers@),
{
    let mut r: Vec<Marker> = Vec::new();
    let mut i: usize = 0;
    while i < markers.len()
        invariant
            i <= markers.len(),
            marker_views(r@) == marker_views(markers@.take(i as int)),
        decreases markers.len() - i,
    {
        let ghost before = r@;
        let m = markers[i].clone();
        r.push(m);
        assert(marker_views(r@) =~= marker_views(before).push(m@));
        assert(marker_views(markers@.take(i + 1)) =~= marker_views(markers@.take(i as int)).push(
            markers@[i as int]@,
        ));
        i += 1;
    }
    assert(markers@.take(markers@.len() as int) == markers@);
    r
}

/// A copy of each beat slot of `counts`, in order.
pub fn clone_counts(counts: &Vec<CountElement>) -> (r: Vec<CountElement>)
    ensures
        count_views(r@) == count_views(counts@),
{
    let mut r: Vec<CountElement> = Vec::new();
    let mut i: usize = 0;
    while i < counts.len()
        invariant
            i <= counts.len(),
            count_views(r@) == count_views(counts@.take(i as int)),
        decreases counts.len() - i,
    {
        let ghost before = r@;
        let c = counts[i].clone();
        r.push(c);
        assert(count_views(r@) =~= count_views(before).push(c@));
        assert(count_views(counts@.take(i + 1)) =~= count_views(counts@.take(i as int)).push(
            counts@[i as int]@,
        ));
        i += 1;
    }
    assert(counts@.take(counts@.len() as int) == counts@);
    r
}

impl Bar {
    /// A bar of `count_count` empty beat slots.
    pub fn new(count_count: usize) -> (bar: Bar)
        ensures
            bar@ == empty_bar(count_count as nat),
    {
        let mut counts: Vec<CountElement> = Vec::new();
        let mut i: usize = 0;
        while i < count_count
            invariant
                i <= count_count,
                count_views(counts@) == empty_bar(i as nat).counts,
            decreases count_count - i,
        {
            let ghost before = counts@;
            counts.push(CountElement::Empty);
            assert(count_views(counts@) =~= count_views(before).push(CountElementView::Empty));
            assert(empty_bar((i + 1) as nat).counts =~= empty_bar(i as nat).counts.push(
                CountElementView::Empty,
            ));
            i += 1;
        }
        let bar = Bar {
            double_start: false,
            double_end: false,
            repeat_start: false,
            repeat_end: false,
            final_bar: false,
            markers: Vec::new(),
            counts,
        };
        assert(marker_views(bar.markers@) =~= Seq::<MarkerView>::empty());
        bar
    }

    /// The bar whose beat slots are `counts`, without marks, between plain
    /// bar lines.
    pub fn from_counts(counts: Vec<CountElement>) -> (bar: Bar)
        ensures
            bar@ == (BarView { counts: count_views(counts@), ..empty_bar(0) }),
    {
        let bar = Bar {
            double_start: false,
            double_end: false,
            repeat_start: false,
            repeat_end: false,
            final_bar: false,
            markers: Vec::new(),
            counts,
        };
        assert(marker_views(bar.markers@) =~= Seq::<MarkerView>::empty());
        bar
    }
}

impl Clone for Bar {
    fn clone(&self) -> (r: Self)
        ensures
            r@ == self@,
    {
        Bar {
            double_start: self.double_start,
            double_end: self.double_end,
            repeat_start: self.repeat_start,
            repeat_end: self.repeat_end,
            final_bar: self.final_bar,
            markers: clone_markers(&self.markers),
            counts: clone_counts(&self.counts),
        }
    }
}

/// One thing written in a bar on the page.
#[derive(Debug, PartialEq, Eq)]
pub enum WrittenElement {
    SectionMarker(String),
    TimeSignature(TimeSignature),
    Chord(Chord, Width),
    NumberedEnding(String),
    /// The sign that the bar repeats the one before it.
    RepeatMeasure,
    /// One half of the sign that two bars repeat the two before them.
    RepeatTwoMeasures,
    Coda,
    Segno,
    Fermata,
}

/// The mathematical value of a [`WrittenElement`].
pub enum WrittenElementView {
    SectionMarker(Seq<char>),
    TimeSignature(TimeSignature),
    Chord(ChordView, Width),
    NumberedEnding(Seq<char>),
    RepeatMeasure,
    RepeatTwoMeasures,
    Coda,
    Segno,
    Fermata,
}

impl View for WrittenElement {
    type V = WrittenElementView;

    open spec fn view(&self) -> WrittenElementView {
        match *self {
            WrittenElement::SectionMarker(s) => WrittenElementView::SectionMarker(s@),
            WrittenElement::TimeSignature(ts) => WrittenElementView::TimeSignature(ts),
            WrittenElement::Chord(c, w) => WrittenElementView::Chord(c@, w),
            WrittenElement::NumberedEnding(s) => WrittenElementView::NumberedEnding(s@),
            WrittenElement::RepeatMeasure => WrittenElementView::RepeatMeasure,
            WrittenElement::RepeatTwoMeasures => WrittenElementView::RepeatTwoMeasures,
            WrittenElement::Coda => WrittenElementView::Coda,
            WrittenElement::Segno => WrittenElementView::Segno,
            WrittenElement::Fermata => WrittenElementView::Fermata,
        }
    }
}

impl Clone for WrittenElement {
    fn clone(&self) -> (r: Self)
        ensures
            r@ == self@,
    {
        match self {
            WrittenElement::SectionMarker(s) => WrittenElement::SectionMarker(s.clone()),
            WrittenElement::TimeSignature(ts) => WrittenElement::TimeSignature(*ts),
            WrittenElement::Chord(c, w) => WrittenElement::Chord(c.clone(), *w),
            WrittenElement::NumberedEnding(s) => WrittenElement::NumberedEnding(s.clone()),
            WrittenElement::RepeatMeasure => WrittenElement::RepeatMeasure,
            WrittenElement::RepeatTwoMeasures => WrittenElement::RepeatTwoMeasures,
            WrittenElement::Coda => WrittenElement::Coda,
            WrittenElement::Segno => WrittenElement::Segno,
            WrittenElement::Fermata => WrittenElement::Fermata,
        }
    }
}

/// The views of a sequence of written elements, element by element.
pub open spec fn element_views(elements: Seq<WrittenElement>) -> Seq<WrittenElementView> {
    elements.map_values(|e: WrittenElement| e@)
}

/// A bar as it is written on the page: what stands in it, in order, and the
/// bar lines on either side.
#[derive(Debug, PartialEq, Eq)]
pub struct WrittenBar {
    pub repeat_start: bool,
    pub repeat_end: bool,
    pub double_start: bool,
    pub double_end: bool,
    pub elements: Vec<WrittenElement>,
}

/// The mathematical value of a [`WrittenBar`].
pub struct WrittenBarView {
    pub repeat_start: bool,
    pub repeat_end: bool,
    pub double_start: bool,
    pub double_end: bool,
    pub elements: Seq<WrittenElementView>,
}

impl View for WrittenBar {
    type V = WrittenBarView;

    open spec fn view(&self) -> WrittenBarView {
        WrittenBarView {
            repeat_start: self.repeat_start,
            repeat_end: self.repeat_end,
            double_start: self.double_start,
            double_end: self.double_end,
            elements: element_views(self.elements@),
        }
    }
}

/// The views of a sequence of written bars, element by element.
pub open spec fn written_bar_views(bars: Seq<WrittenBar>) -> Seq<WrittenBarView> {
    bars.map_values(|b: WrittenBar| b@)
}

/// The written bar that holds `elements` between plain bar lines.
pub open spec fn plain_page(elements: Seq<WrittenElementView>) -> WrittenBarView {
    WrittenBarView {
        repeat_start: false,
        repeat_end: false,
        double_start: false,
        double_end: false,
        elements,
    }
}

impl WrittenBar {
    /// An empty written bar between plain bar lines.
    pub fn new() -> (bar: WrittenBar)
        ensures
            bar@ == plain_page(Seq::empty()),
    {
        let bar = WrittenBar {
            repeat_start: false,
            repeat_end: false,
            double_start: false,
            double_end: false,
            elements: Vec::new(),
        };
        assert(element_views(bar.elements@) =~= Seq::<WrittenElementView>::empty());
        bar
    }

    /// A written bar that holds the one-measure repeat sign and nothing else.
    pub fn repeat() -> (bar: WrittenBar)
        ensures
            bar@ == plain_page(seq![WrittenElementView::RepeatMeasure]),
    {
        let mut elements: Vec<WrittenElement> = Vec::new();
        elements.push(WrittenElement::RepeatMeasure);
        let bar = WrittenBar {
            repeat_start: false,
            repeat_end: false,
            double_start: false,
            double_end: false,
            elements,
        };
        assert(element_views(bar.elements@) =~= seq![WrittenElementView::RepeatMeasure]);
        bar
    }
}

impl Clone for WrittenBar {
    fn clone(&self) -> (r: Self)
        ensures
            r@ == self@,
    {
        let mut elements: Vec<WrittenElement> = Vec::new();
        let mut i: usize = 0;
        while i < self.elements.len()
            invariant
                i <= self.elements.len(),
                element_views(elements@) == element_views(self.elements@.take(i as int)),
            decreases self.elements.len() - i,
        {
            let ghost before = elements@;
            let e = self.elements[i].clone();
            elements.push(e);
            assert(element_views(elements@) =~= element_views(before).push(e@));
            assert(element_views(self.elements@.take(i + 1)) =~= element_views(
                self.elements@.take(i as int),
            ).push(self.elements@[i as int]@));
            i += 1;
        }
        assert(self.elements@.take(self.elements@.len() as int) == self.elements@);
        WrittenBar {
            repeat_start: self.repeat_start,
            repeat_end: self.repeat_end,
            double_start: self.double_start,
            double_end: self.double_end,
            elements,
        }
    }
}

/// The music of one song: its bars beat by beat, the same bars as they are
/// written on the page, and the text they were read from.
#[derive(Debug, PartialEq, Eq)]
pub struct Music {
    /// The descrambled text of the chart.
    pub raw: String,
    /// The bars, with every repeat sign written out.
    pub bars: Vec<Bar>,
    /// The bars as the page shows them, one for each of `bars`.
    pub written_bars: Vec<WrittenBar>,
    /// The index of the first bar that opens a repeat, if there is one.
    pub repeat_start: Option<usize>,
}

/// The mathematical value of a [`Music`].
pub struct MusicView {
    pub raw: Seq<char>,
    pub bars: Seq<BarView>,
    pub written_bars: Seq<WrittenBarView>,
    pub repeat_start: Option<usize>,
}

impl View for Music {
    type V = MusicView;

    open spec fn view(&self) -> MusicView {
        MusicView {
            raw: self.raw@,
            bars: bar_views(self.bars@),
            written_bars: written_bar_views(self.written_bars@),
            repeat_start: self.repeat_start,
        }
    }
}

impl Clone for Music {
    fn clone(&self) -> (r: Self)
        ensures
            r@ == self@,
    {
        let mut bars: Vec<Bar> = Vec::new();
        let mut i: usize = 0;
        while i < self.bars.len()
            invariant
                i <= self.bars.len(),
                bar_views(bars@) == bar_views(self.bars@.take(i as int)),
            decreases self.bars.len() - i,
        {
            let ghost before = bars@;
            let b = self.bars[i].clone();
            bars.push(b);
            assert(bar_views(bars@) =~= bar_views(before).push(b@));
            assert(bar_views(self.bars@.take(i + 1)) =~= bar_views(self.bars@.take(i as int)).push(
                self.bars@[i as int]@,
            ));
            i += 1;
        }
        assert(self.bars@.take(self.bars@.len() as int) == self.bars@);
        let mut written_bars: Vec<WrittenBar> = Vec::new();
        let mut k: usize = 0;
        while k < self.written_bars.len()
            invariant
                k <= self.written_bars.len(),
                written_bar_views(written_bars@) == written_bar_views(
                    self.written_bars@.take(k as int),
                ),
            decreases self.written_bars.len() - k,
        {
            let ghost before = written_bars@;
            let b = self.written_bars[k].clone();
            written_bars.push(b);
            assert(written_bar_views(written_bars@) =~= written_bar_views(before).push(b@));
            assert(written_bar_views(self.written_bars@.take(k + 1)) =~= written_bar_views(
                self.written_bars@.take(k as int),
            ).push(self.written_bars@[k as int]@));
            k += 1;
        }
        assert(self.written_bars@.take(self.written_bars@.len() as int) == self.written_bars@);
        Music { raw: self.raw.clone(), bars, written_bars, repeat_start: self.repeat_start }
    }
}

} // verus!
