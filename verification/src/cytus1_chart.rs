//! The time-based target chart format: model, line-oriented text writer,
//! tolerant text parser, and the round-trip guarantee between them.
//!
//! Times and coordinates are exact integer counts of millionths of the unit
//! (seconds for times, the normalized playfield for `x`), so the writer's six
//! decimal places lose nothing.

use vstd::prelude::*;
use vstd::string::StringExecFns;

use crate::text::ascii_to_string;
use crate::text::count_dots;
use crate::text::dec_digits;
use crate::text::digit_prefix_len;
use crate::text::digit_val;
use crate::text::digits_val;
use crate::text::fixed6;
use crate::text::fixed_prefix_len;
use crate::text::fixed_val;
use crate::text::is_digit;
use crate::text::is_fixed_byte;
use crate::text::is_fixed_token;
use crate::text::is_ws;
use crate::text::lemma_dec_digits_wf;
use crate::text::lemma_digit_prefix_len;
use crate::text::lemma_digits_val_dec;
use crate::text::lemma_fixed_prefix_len;
use crate::text::lemma_fixed_val_fixed6;
use crate::text::lemma_join_concat;
use crate::text::lemma_pad_digits_wf;
use crate::text::lemma_tokenize_join;
use crate::text::pad_digits;
use crate::text::pow10;
use crate::text::push_dec;
use crate::text::push_fixed6;
use crate::text::spec_join;
use crate::text::spec_tokenize;
use crate::text::tokenize;

verus! {

/// A note of the target chart; `time`, `x` and `hold_length` are in
/// millionths (microseconds, or millionths of the playfield width).
#[derive(Clone, Copy, Debug, PartialEq, Eq, Structural)]
pub struct Cytus1ChartNote {
    pub id: u32,
    pub time_micros: u64,
    pub x_micros: u64,
    pub hold_length_micros: u64,
}

/// One drag chain: the ordered ids of its notes.
#[derive(Clone, Debug)]
pub struct Cytus1ChartLink {
    pub link: Vec<u32>,
}

/// A chart in the target format. `bpm`, `page_shift` and `page_size` are in
/// millionths of their unit.
#[derive(Clone, Debug)]
pub struct Cytus1Chart {
    pub version: u32,
    pub bpm_micros: u64,
    pub page_shift_micros: u64,
    pub page_size_micros: u64,
    pub notes: Vec<Cytus1ChartNote>,
    pub links: Vec<Cytus1ChartLink>,
}

impl Cytus1ChartNote {
    /// Builds a note from its id, time, x position and hold length.
    pub fn new(id: u32, time_micros: u64, x_micros: u64, hold_length_micros: u64) -> (r: Self)
        ensures
            r == (Cytus1ChartNote { id, time_micros, x_micros, hold_length_micros }),
    {
        Self { id, time_micros, x_micros, hold_length_micros }
    }
}

impl Default for Cytus1ChartLink {
    /// An empty chain.
    fn default() -> (r: Self)
        ensures
            r.link@ == Seq::<u32>::empty(),
    {
        Self { link: Vec::new() }
    }
}

impl Default for Cytus1Chart {
    /// A chart at format version 2 with all quantities zero and no content.
    fn default() -> (r: Self)
        ensures
            r.version == 2,
            r.bpm_micros == 0,
            r.page_shift_micros == 0,
            r.page_size_micros == 0,
            r.notes@ == Seq::<Cytus1ChartNote>::empty(),
            r.links@.len() == 0,
    {
        Self {
            version: 2,
            bpm_micros: 0,
            page_shift_micros: 0,
            page_size_micros: 0,
            notes: Vec::new(),
            links: Vec::new(),
        }
    }
}

impl Cytus1Chart {
    /// The reverse conversion, back to the page-based format; not offered,
    /// and always an error.
    pub fn into_c2chart(&self) -> (r: Result<crate::cyl_chart::CylheimChart, crate::utils::CylToolError>)
        ensures
            r is Err,
    {
        Err(crate::utils::CylToolError::new("error"))
    }
}

/// Lexicographic order on two chains: elementwise by id, with the shorter
/// chain first on a tie.
pub open spec fn spec_link_le(a: Seq<u32>, b: Seq<u32>) -> bool
    decreases a.len(),
{
    if a.len() == 0 {
        true
    } else if b.len() == 0 {
        false
    } else if a[0] < b[0] {
        true
    } else if a[0] > b[0] {
        false
    } else {
        spec_link_le(a.skip(1), b.skip(1))
    }
}

/// Compares two chains lexicographically by their ids; a shorter chain
/// precedes a longer one with the same leading ids.
pub fn compare_links(a: &Cytus1ChartLink, b: &Cytus1ChartLink) -> (r: core::cmp::Ordering)
    ensures
        r == core::cmp::Ordering::Less ==> spec_link_le(a.link@, b.link@) && a.link@ != b.link@,
        r == core::cmp::Ordering::Greater ==> spec_link_le(b.link@, a.link@) && a.link@
            != b.link@,
        r == core::cmp::Ordering::Equal ==> a.link@ == b.link@,
{
    let mut i: usize = 0;
    let alen = a.link.len();
    let blen = b.link.len();
    let len = if alen < blen {
        alen
    } else {
        blen
    };
    while i < len
        invariant
            len <= a.link@.len(),
            len <= b.link@.len(),
            i <= len,
            forall|t: int| 0 <= t < i ==> a.link@[t] == b.link@[t],
        decreases len - i,
    {
        if a.link[i] < b.link[i] {
            proof {
                lemma_link_le_at(a.link@, b.link@, i as int);
            }
            return core::cmp::Ordering::Less;
        }
        if a.link[i] > b.link[i] {
            proof {
                lemma_link_le_at(b.link@, a.link@, i as int);
            }
            return core::cmp::Ordering::Greater;
        }
        i = i + 1;
    }
    if a.link.len() < b.link.len() {
        proof {
            lemma_link_le_prefix(a.link@, b.link@);
        }
        return core::cmp::Ordering::Less;
    }
    if a.link.len() > b.link.len() {
        proof {
            lemma_link_le_prefix(b.link@, a.link@);
        }
        return core::cmp::Ordering::Greater;
    }
    proof {
        assert(a.link@ =~= b.link@);
    }
    core::cmp::Ordering::Equal
}

/// A chain that first differs at position `i`, smaller there, precedes the
/// other and differs from it.
proof fn lemma_link_le_at(a: Seq<u32>, b: Seq<u32>, i: int)
    requires
        0 <= i < a.len(),
        i < b.len(),
        forall|t: int| 0 <= t < i ==> a[t] == b[t],
        a[i] < b[i],
    ensures
        spec_link_le(a, b),
        a != b,
    decreases i,
{
    if i == 0 {
        assert(a[0] < b[0]);
    } else {
        assert(a.skip(1)[i - 1] == a[i]);
        lemma_link_le_at(a.skip(1), b.skip(1), i - 1);
        assert(a.skip(1) != b.skip(1));
        assert(a != b) by {
            if a == b {
                assert(a.skip(1) =~= b.skip(1));
            }
        };
    }
}

/// A strict prefix precedes the chain it is a prefix of, and differs from it.
proof fn lemma_link_le_prefix(a: Seq<u32>, b: Seq<u32>)
    requires
        a.len() < b.len(),
        forall|t: int| 0 <= t < a.len() ==> a[t] == b[t],
    ensures
        spec_link_le(a, b),
        a != b,
    decreases a.len(),
{
    if a.len() > 0 {
        lemma_link_le_prefix(a.skip(1), b.skip(1));
    }
}

/// The bytes of `VERSION`.
pub open spec fn kw_version() -> Seq<u8> {
    seq![86u8, 69u8, 82u8, 83u8, 73u8, 79u8, 78u8]
}

/// The bytes of `BPM`.
pub open spec fn kw_bpm() -> Seq<u8> {
    seq![66u8, 80u8, 77u8]
}

/// The bytes of `PAGE_SHIFT`.
pub open spec fn kw_page_shift() -> Seq<u8> {
    seq![80u8, 65u8, 71u8, 69u8, 95u8, 83u8, 72u8, 73u8, 70u8, 84u8]
}

/// The bytes of `PAGE_SIZE`.
pub open spec fn kw_page_size() -> Seq<u8> {
    seq![80u8, 65u8, 71u8, 69u8, 95u8, 83u8, 73u8, 90u8, 69u8]
}

/// The bytes of `Note`, the casing the writer uses.
pub open spec fn kw_note() -> Seq<u8> {
    seq![78u8, 111u8, 116u8, 101u8]
}

/// The bytes of `NOTE`, the casing the parser matches against.
pub open spec fn kw_note_upper() -> Seq<u8> {
    seq![78u8, 79u8, 84u8, 69u8]
}

/// The bytes of `LINK`.
pub open spec fn kw_link() -> Seq<u8> {
    seq![76u8, 73u8, 78u8, 75u8]
}

/// The words of one note line.
pub open spec fn note_words(n: Cytus1ChartNote) -> Seq<Seq<u8>> {
    seq![
        kw_note(),
        dec_digits(n.id as nat),
        fixed6(n.time_micros as nat),
        fixed6(n.x_micros as nat),
        fixed6(n.hold_length_micros as nat),
    ]
}

/// The separators of one note line: tabs between words, then a newline.
pub open spec fn note_seps() -> Seq<u8> {
    seq![9u8, 9u8, 9u8, 9u8, 10u8]
}

/// The words of all note lines in order.
pub open spec fn notes_words(notes: Seq<Cytus1ChartNote>) -> Seq<Seq<u8>>
    decreases notes.len(),
{
    if notes.len() == 0 {
        Seq::empty()
    } else {
        note_words(notes[0]) + notes_words(notes.skip(1))
    }
}

/// The separators of all note lines in order.
pub open spec fn notes_seps(notes: Seq<Cytus1ChartNote>) -> Seq<u8>
    decreases notes.len(),
{
    if notes.len() == 0 {
        Seq::empty()
    } else {
        note_seps() + notes_seps(notes.skip(1))
    }
}

/// The words of one link line: the keyword, then the ids.
pub open spec fn link_words(l: Seq<u32>) -> Seq<Seq<u8>> {
    seq![kw_link()] + Seq::new(l.len(), |i: int| dec_digits(l[i] as nat))
}

/// The separators of one link line: spaces between words, then a newline.
pub open spec fn link_seps(l: Seq<u32>) -> Seq<u8> {
    Seq::new(l.len() + 1, |i: int| if i == l.len() { 10u8 } else { 32u8 })
}

/// The words of all link lines in order.
pub open spec fn links_words(links: Seq<Seq<u32>>) -> Seq<Seq<u8>>
    decreases links.len(),
{
    if links.len() == 0 {
        Seq::empty()
    } else {
        link_words(links[0]) + links_words(links.skip(1))
    }
}

/// The separators of all link lines in order.
pub open spec fn links_seps(links: Seq<Seq<u32>>) -> Seq<u8>
    decreases links.len(),
{
    if links.len() == 0 {
        Seq::empty()
    } else {
        link_seps(links[0]) + links_seps(links.skip(1))
    }
}

/// The id sequences of a chart's links.
pub open spec fn links_view(links: Seq<Cytus1ChartLink>) -> Seq<Seq<u32>> {
    Seq::new(links.len(), |i: int| links[i].link@)
}

/// The words of the whole chart, header first.
pub open spec fn chart_words(c: Cytus1Chart) -> Seq<Seq<u8>> {
    seq![
        kw_version(),
        dec_digits(c.version as nat),
        kw_bpm(),
        fixed6(c.bpm_micros as nat),
        kw_page_shift(),
        fixed6(c.page_shift_micros as nat),
        kw_page_size(),
        fixed6(c.page_size_micros as nat),
    ] + notes_words(c.notes@) + links_words(links_view(c.links@))
}

/// The separators of the whole chart.
pub open spec fn chart_seps(c: Cytus1Chart) -> Seq<u8> {
    seq![32u8, 10u8, 32u8, 10u8, 32u8, 10u8, 32u8, 10u8] + notes_seps(c.notes@) + links_seps(
        links_view(c.links@),
    )
}

/// The exact text the writer produces for `c`.
pub open spec fn spec_chart_text(c: Cytus1Chart) -> Seq<u8> {
    spec_join(chart_words(c), chart_seps(c))
}

/// Appending a word and its separator extends the join by that word and
/// separator.
proof fn lemma_join_snoc(words: Seq<Seq<u8>>, seps: Seq<u8>, w: Seq<u8>, s: u8)
    requires
        words.len() == seps.len(),
    ensures
        spec_join(words.push(w), seps.push(s)) == spec_join(words, seps) + w + seq![s],
{
    assert(words.push(w) =~= words + seq![w]);
    assert(seps.push(s) =~= seps + seq![s]);
    lemma_join_concat(words, seps, seq![w], seq![s]);
    assert(spec_join(seq![w], seq![s]) =~= w + seq![s]) by {
        assert(seq![w].skip(1) =~= Seq::<Seq<u8>>::empty());
        assert(seq![s].skip(1) =~= Seq::<u8>::empty());
        assert(spec_join(Seq::<Seq<u8>>::empty(), Seq::<u8>::empty()) =~= Seq::<u8>::empty());
    };
    assert(spec_join(words, seps) + (w + seq![s]) =~= spec_join(words, seps) + w + seq![s]);
}

/// Appending a note extends the note words by that note's words.
proof fn lemma_notes_words_snoc(s: Seq<Cytus1ChartNote>, n: Cytus1ChartNote)
    ensures
        notes_words(s.push(n)) == notes_words(s) + note_words(n),
        notes_seps(s.push(n)) == notes_seps(s) + note_seps(),
    decreases s.len(),
{
    if s.len() == 0 {
        assert(s.push(n)[0] == n);
        assert(s.push(n).skip(1) =~= Seq::<Cytus1ChartNote>::empty());
        assert(notes_words(Seq::<Cytus1ChartNote>::empty()) =~= Seq::<Seq<u8>>::empty());
        assert(notes_seps(Seq::<Cytus1ChartNote>::empty()) =~= Seq::<u8>::empty());
        assert(notes_words(s.push(n)) =~= notes_words(s) + note_words(n));
        assert(notes_seps(s.push(n)) =~= notes_seps(s) + note_seps());
    } else {
        assert(s.push(n)[0] == s[0]);
        assert(s.push(n).skip(1) =~= s.skip(1).push(n));
        lemma_notes_words_snoc(s.skip(1), n);
        assert(notes_words(s.push(n)) == note_words(s[0]) + (notes_words(s.skip(1)) + note_words(
            n,
        )));
        assert(note_words(s[0]) + (notes_words(s.skip(1)) + note_words(n)) =~= (note_words(s[0])
            + notes_words(s.skip(1))) + note_words(n));
        assert(notes_seps(s.push(n)) == note_seps() + (notes_seps(s.skip(1)) + note_seps()));
        assert(note_seps() + (notes_seps(s.skip(1)) + note_seps()) =~= (note_seps() + notes_seps(
            s.skip(1),
        )) + note_seps());
    }
}

/// Appending a link extends the link words by that link's words.
proof fn lemma_links_words_snoc(s: Seq<Seq<u32>>, l: Seq<u32>)
    ensures
        links_words(s.push(l)) == links_words(s) + link_words(l),
        links_seps(s.push(l)) == links_seps(s) + link_seps(l),
    decreases s.len(),
{
    if s.len() == 0 {
        assert(s.push(l)[0] == l);
        assert(s.push(l).skip(1) =~= Seq::<Seq<u32>>::empty());
        assert(links_words(Seq::<Seq<u32>>::empty()) =~= Seq::<Seq<u8>>::empty());
        assert(links_seps(Seq::<Seq<u32>>::empty()) =~= Seq::<u8>::empty());
        assert(links_words(s.push(l)) =~= links_words(s) + link_words(l));
        assert(links_seps(s.push(l)) =~= links_seps(s) + link_seps(l));
    } else {
        assert(s.push(l)[0] == s[0]);
        assert(s.push(l).skip(1) =~= s.skip(1).push(l));
        lemma_links_words_snoc(s.skip(1), l);
        assert(links_words(s.push(l)) == link_words(s[0]) + (links_words(s.skip(1)) + link_words(
            l,
        )));
        assert(link_words(s[0]) + (links_words(s.skip(1)) + link_words(l)) =~= (link_words(s[0])
            + links_words(s.skip(1))) + link_words(l));
        assert(links_seps(s.push(l)) == link_seps(s[0]) + (links_seps(s.skip(1)) + link_seps(l)));
        assert(link_seps(s[0]) + (links_seps(s.skip(1)) + link_seps(l)) =~= (link_seps(s[0])
            + links_seps(s.skip(1))) + link_seps(l));
    }
}

/// Appends the bytes of `VERSION`.
fn push_kw_version(out: &mut Vec<u8>)
    ensures
        final(out)@ == old(out)@ + kw_version(),
{
    out.push(86);
    out.push(69);
    out.push(82);
    out.push(83);
    out.push(73);
    out.push(79);
    out.push(78);
    proof {
        assert(out@ =~= old(out)@ + kw_version());
    }
}

/// Appends the bytes of `BPM`.
fn push_kw_bpm(out: &mut Vec<u8>)
    ensures
        final(out)@ == old(out)@ + kw_bpm(),
{
    out.push(66);
    out.push(80);
    out.push(77);
    proof {
        assert(out@ =~= old(out)@ + kw_bpm());
    }
}

/// Appends the bytes of `PAGE_SHIFT`.
fn push_kw_page_shift(out: &mut Vec<u8>)
    ensures
        final(out)@ == old(out)@ + kw_page_shift(),
{
    out.push(80);
    out.push(65);
    out.push(71);
    out.push(69);
    out.push(95);
    out.push(83);
    out.push(72);
    out.push(73);
    out.push(70);
    out.push(84);
    proof {
        assert(out@ =~= old(out)@ + kw_page_shift());
    }
}

/// Appends the bytes of `PAGE_SIZE`.
fn push_kw_page_size(out: &mut Vec<u8>)
    ensures
        final(out)@ == old(out)@ + kw_page_size(),
{
    out.push(80);
    out.push(65);
    out.push(71);
    out.push(69);
    out.push(95);
    out.push(83);
    out.push(73);
    out.push(90);
    out.push(69);
    proof {
        assert(out@ =~= old(out)@ + kw_page_size());
    }
}

/// Appends the bytes of `Note`.
fn push_kw_note(out: &mut Vec<u8>)
    ensures
        final(out)@ == old(out)@ + kw_note(),
{
    out.push(78);
    out.push(111);
    out.push(116);
    out.push(101);
    proof {
        assert(out@ =~= old(out)@ + kw_note());
    }
}

/// Appends the bytes of `LINK`.
fn push_kw_link(out: &mut Vec<u8>)
    ensures
        final(out)@ == old(out)@ + kw_link(),
{
    out.push(76);
    out.push(73);
    out.push(78);
    out.push(75);
    proof {
        assert(out@ =~= old(out)@ + kw_link());
    }
}

impl Cytus1Chart {
    /// Serializes the chart to its line-oriented text form, as bytes:
    /// a `VERSION`, `BPM`, `PAGE_SHIFT` and `PAGE_SIZE` header line, one
    /// `Note` line per note, one `LINK` line per chain.
    pub fn to_bytes(&self) -> (r: Vec<u8>)
        ensures
            r@ == spec_chart_text(*self),
    {
        let mut out: Vec<u8> = Vec::new();
        let ghost mut wacc: Seq<Seq<u8>> = Seq::empty();
        let ghost mut sacc: Seq<u8> = Seq::empty();
        proof {
            assert(spec_join(wacc, sacc) =~= Seq::<u8>::empty());
        }
        push_kw_version(&mut out);
        out.push(32);
        proof {
            lemma_join_snoc(wacc, sacc, kw_version(), 32);
            wacc = wacc.push(kw_version());
            sacc = sacc.push(32);
            assert(out@ =~= spec_join(wacc, sacc));
        }
        push_dec(&mut out, self.version as u64);
        out.push(10);
        proof {
            lemma_join_snoc(wacc, sacc, dec_digits(self.version as nat), 10);
            wacc = wacc.push(dec_digits(self.version as nat));
            sacc = sacc.push(10);
            assert(out@ =~= spec_join(wacc, sacc));
        }
        push_kw_bpm(&mut out);
        out.push(32);
        proof {
            lemma_join_snoc(wacc, sacc, kw_bpm(), 32);
            wacc = wacc.push(kw_bpm());
            sacc = sacc.push(32);
            assert(out@ =~= spec_join(wacc, sacc));
        }
        push_fixed6(&mut out, self.bpm_micros);
        out.push(10);
        proof {
            lemma_join_snoc(wacc, sacc, fixed6(self.bpm_micros as nat), 10);
            wacc = wacc.push(fixed6(self.bpm_micros as nat));
            sacc = sacc.push(10);
            assert(out@ =~= spec_join(wacc, sacc));
        }
        push_kw_page_shift(&mut out);
        out.push(32);
        proof {
            lemma_join_snoc(wacc, sacc, kw_page_shift(), 32);
            wacc = wacc.push(kw_page_shift());
            sacc = sacc.push(32);
            assert(out@ =~= spec_join(wacc, sacc));
        }
        push_fixed6(&mut out, self.page_shift_micros);
        out.push(10);
        proof {
            lemma_join_snoc(wacc, sacc, fixed6(self.page_shift_micros as nat), 10);
            wacc = wacc.push(fixed6(self.page_shift_micros as nat));
            sacc = sacc.push(10);
            assert(out@ =~= spec_join(wacc, sacc));
        }
        push_kw_page_size(&mut out);
        out.push(32);
        proof {
            lemma_join_snoc(wacc, sacc, kw_page_size(), 32);
            wacc = wacc.push(kw_page_size());
            sacc = sacc.push(32);
            assert(out@ =~= spec_join(wacc, sacc));
        }
        push_fixed6(&mut out, self.page_size_micros);
        out.push(10);
        proof {
            lemma_join_snoc(wacc, sacc, fixed6(self.page_size_micros as nat), 10);
            wacc = wacc.push(fixed6(self.page_size_micros as nat));
            sacc = sacc.push(10);
            assert(out@ =~= spec_join(wacc, sacc));
        }
        let ghost header_words = wacc;
        let ghost header_seps = sacc;
        proof {
            assert(header_words =~= chart_words_header(*self));
            assert(header_seps =~= chart_seps_header());
            assert(self.notes@.take(0) =~= Seq::<Cytus1ChartNote>::empty());
            assert(wacc =~= header_words + notes_words(self.notes@.take(0)));
            assert(sacc =~= header_seps + notes_seps(self.notes@.take(0)));
        }
        let mut i: usize = 0;
        while i < self.notes.len()
            invariant
                i <= self.notes@.len(),
                wacc == header_words + notes_words(self.notes@.take(i as int)),
                sacc == header_seps + notes_seps(self.notes@.take(i as int)),
                wacc.len() == sacc.len(),
                out@ == spec_join(wacc, sacc),
                header_words == chart_words_header(*self),
                header_seps == chart_seps_header(),
            decreases self.notes@.len() - i,
        {
            let n = self.notes[i];
            push_kw_note(&mut out);
            out.push(9);
            proof {
                lemma_join_snoc(wacc, sacc, kw_note(), 9);
                wacc = wacc.push(kw_note());
                sacc = sacc.push(9);
                assert(out@ =~= spec_join(wacc, sacc));
            }
            push_dec(&mut out, n.id as u64);
            out.push(9);
            proof {
                lemma_join_snoc(wacc, sacc, dec_digits(n.id as nat), 9);
                wacc = wacc.push(dec_digits(n.id as nat));
                sacc = sacc.push(9);
                assert(out@ =~= spec_join(wacc, sacc));
            }
            push_fixed6(&mut out, n.time_micros);
            out.push(9);
            proof {
                lemma_join_snoc(wacc, sacc, fixed6(n.time_micros as nat), 9);
                wacc = wacc.push(fixed6(n.time_micros as nat));
                sacc = sacc.push(9);
                assert(out@ =~= spec_join(wacc, sacc));
            }
            push_fixed6(&mut out, n.x_micros);
            out.push(9);
            proof {
                lemma_join_snoc(wacc, sacc, fixed6(n.x_micros as nat), 9);
                wacc = wacc.push(fixed6(n.x_micros as nat));
                sacc = sacc.push(9);
                assert(out@ =~= spec_join(wacc, sacc));
            }
            push_fixed6(&mut out, n.hold_length_micros);
            out.push(10);
            proof {
                lemma_join_snoc(wacc, sacc, fixed6(n.hold_length_micros as nat), 10);
                wacc = wacc.push(fixed6(n.hold_length_micros as nat));
                sacc = sacc.push(10);
                assert(out@ =~= spec_join(wacc, sacc));
                lemma_notes_words_snoc(self.notes@.take(i as int), n);
                assert(self.notes@.take(i as int).push(n) =~= self.notes@.take(i as int + 1));
                assert(wacc =~= header_words + notes_words(self.notes@.take(i as int + 1)));
                assert(sacc =~= header_seps + notes_seps(self.notes@.take(i as int + 1)));
            }
            i = i + 1;
        }
        proof {
            assert(self.notes@.take(i as int) =~= self.notes@);
        }
        let ghost upto_notes_words = wacc;
        let ghost upto_notes_seps = sacc;
        proof {
            assert(links_view(self.links@).take(0) =~= Seq::<Seq<u32>>::empty());
            assert(wacc =~= upto_notes_words + links_words(links_view(self.links@).take(0)));
            assert(sacc =~= upto_notes_seps + links_seps(links_view(self.links@).take(0)));
        }
        let mut k: usize = 0;
        while k < self.links.len()
            invariant
                k <= self.links@.len(),
                wacc == upto_notes_words + links_words(links_view(self.links@).take(k as int)),
                sacc == upto_notes_seps + links_seps(links_view(self.links@).take(k as int)),
                wacc.len() == sacc.len(),
                out@ == spec_join(wacc, sacc),
                upto_notes_words == chart_words_header(*self) + notes_words(self.notes@),
                upto_notes_seps == chart_seps_header() + notes_seps(self.notes@),
            decreases self.links@.len() - k,
        {
            let ghost l = self.links@[k as int].link@;
            push_kw_link(&mut out);
            let idlen = self.links[k].link.len();
            if idlen == 0 {
                out.push(10);
                proof {
                    lemma_join_snoc(wacc, sacc, kw_link(), 10);
                    wacc = wacc.push(kw_link());
                    sacc = sacc.push(10);
                    assert(out@ =~= spec_join(wacc, sacc));
                    assert(wacc =~= upto_notes_words + links_words(
                        links_view(self.links@).take(k as int),
                    ) + link_words(l));
                    assert(sacc =~= upto_notes_seps + links_seps(
                        links_view(self.links@).take(k as int),
                    ) + link_seps(l));
                }
            } else {
                out.push(32);
                proof {
                    lemma_join_snoc(wacc, sacc, kw_link(), 32);
                    wacc = wacc.push(kw_link());
                    sacc = sacc.push(32);
                    assert(out@ =~= spec_join(wacc, sacc));
                    assert(link_words(l)[0] == kw_link());
                    assert(link_seps(l)[0] == 32u8);
                    assert(wacc =~= upto_notes_words + links_words(
                        links_view(self.links@).take(k as int),
                    ) + link_words(l).take(1));
                    assert(sacc =~= upto_notes_seps + links_seps(
                        links_view(self.links@).take(k as int),
                    ) + link_seps(l).take(1));
                }
                let mut j: usize = 0;
                while j < idlen
                    invariant
                        idlen == l.len(),
                        l == self.links@[k as int].link@,
                        k < self.links@.len(),
                        j <= l.len(),
                        wacc.len() == sacc.len(),
                        out@ == spec_join(wacc, sacc),
                        wacc == upto_notes_words + links_words(
                            links_view(self.links@).take(k as int),
                        ) + link_words(l).take(j + 1),
                        sacc == upto_notes_seps + links_seps(links_view(self.links@).take(k as int))
                            + link_seps(l).take(j + 1),
                    decreases l.len() - j,
                {
                    push_dec(&mut out, self.links[k].link[j] as u64);
                    let sep: u8 = if j + 1 == idlen {
                        10
                    } else {
                        32
                    };
                    out.push(sep);
                    proof {
                        lemma_join_snoc(wacc, sacc, dec_digits(l[j as int] as nat), sep);
                        wacc = wacc.push(dec_digits(l[j as int] as nat));
                        sacc = sacc.push(sep);
                        assert(out@ =~= spec_join(wacc, sacc));
                        assert(link_words(l)[j + 1] == dec_digits(l[j as int] as nat));
                        assert(link_seps(l)[j + 1] == sep);
                        assert(link_words(l).take(j + 1).push(link_words(l)[j + 1]) =~= link_words(
                            l,
                        ).take(j + 2));
                        assert(link_seps(l).take(j + 1).push(link_seps(l)[j + 1]) =~= link_seps(
                            l,
                        ).take(j + 2));
                        assert(wacc =~= upto_notes_words + links_words(
                            links_view(self.links@).take(k as int),
                        ) + link_words(l).take(j + 2));
                        assert(sacc =~= upto_notes_seps + links_seps(
                            links_view(self.links@).take(k as int),
                        ) + link_seps(l).take(j + 2));
                    }
                    j = j + 1;
                }
                proof {
                    assert(link_words(l).take(idlen + 1) =~= link_words(l));
                    assert(link_seps(l).take(idlen + 1) =~= link_seps(l));
                }
            }
            proof {
                lemma_links_words_snoc(links_view(self.links@).take(k as int), l);
                assert(links_view(self.links@).take(k as int).push(l) =~= links_view(
                    self.links@,
                ).take(k as int + 1));
                assert(wacc =~= upto_notes_words + links_words(
                    links_view(self.links@).take(k as int + 1),
                ));
                assert(sacc =~= upto_notes_seps + links_seps(
                    links_view(self.links@).take(k as int + 1),
                ));
            }
            k = k + 1;
        }
        proof {
            assert(links_view(self.links@).take(k as int) =~= links_view(self.links@));
            assert(wacc =~= chart_words(*self));
            assert(sacc =~= chart_seps(*self));
        }
        out
    }

    /// Serializes the chart to its text form as a `String`.
    pub fn to_text(&self) -> (r: String)
        ensures
            r@ == spec_chart_text(*self).map(|i: int, b: u8| b as char),
    {
        let bytes = self.to_bytes();
        proof {
            lemma_chart_text_ascii(*self);
        }
        ascii_to_string(&bytes)
    }
}

/// The eight header words of the chart text.
pub open spec fn chart_words_header(c: Cytus1Chart) -> Seq<Seq<u8>> {
    seq![
        kw_version(),
        dec_digits(c.version as nat),
        kw_bpm(),
        fixed6(c.bpm_micros as nat),
        kw_page_shift(),
        fixed6(c.page_shift_micros as nat),
        kw_page_size(),
        fixed6(c.page_size_micros as nat),
    ]
}

/// The eight header separators of the chart text.
pub open spec fn chart_seps_header() -> Seq<u8> {
    seq![32u8, 10u8, 32u8, 10u8, 32u8, 10u8, 32u8, 10u8]
}

/// ASCII upper casing of one byte.
pub open spec fn upper_byte(b: u8) -> u8 {
    if 97 <= b <= 122 {
        (b - 32) as u8
    } else {
        b
    }
}

/// True when the token is the note keyword, compared case-insensitively.
pub open spec fn is_note_kw(t: Seq<u8>) -> bool {
    &&& t.len() == 4
    &&& upper_byte(t[0]) == 78
    &&& upper_byte(t[1]) == 79
    &&& upper_byte(t[2]) == 84
    &&& upper_byte(t[3]) == 69
}

/// A token usable as a chain id: all digits, and in range for an id.
pub open spec fn link_id_ok(t: Seq<u8>) -> bool {
    &&& t.len() >= 1
    &&& digit_prefix_len(t) == t.len()
    &&& digits_val(t) <= u32::MAX
}

/// The index of the first token from `i` on that equals `kw` and is followed
/// by a token opening with a digit (`fixed` false) or with a digit or dot
/// (`fixed` true); `-1` when there is none.
pub open spec fn find_kw(toks: Seq<Seq<u8>>, kw: Seq<u8>, fixed: bool, i: int) -> int
    decreases toks.len() - i,
{
    if !(0 <= i < toks.len()) {
        -1
    } else if toks[i] == kw && i + 1 < toks.len() && (if fixed {
        fixed_prefix_len(toks[i + 1]) >= 1
    } else {
        digit_prefix_len(toks[i + 1]) >= 1
    }) {
        i
    } else {
        find_kw(toks, kw, fixed, i + 1)
    }
}

/// The leading digits of `t` read as a number.
pub open spec fn uint_prefix_val(t: Seq<u8>) -> nat {
    digits_val(t.take(digit_prefix_len(t) as int))
}

/// The leading digits-and-dots of `t`.
pub open spec fn fixed_prefix(t: Seq<u8>) -> Seq<u8> {
    t.take(fixed_prefix_len(t) as int)
}

/// The numeric prefix of `t` is a well-formed fixed-point token whose value
/// fits the carried width.
pub open spec fn fixed_ok(t: Seq<u8>) -> bool {
    &&& is_fixed_token(fixed_prefix(t))
    &&& fixed_val(fixed_prefix(t)) <= u64::MAX
}

/// The version header parses: its keyword was found and the number fits.
pub open spec fn spec_version_ok(toks: Seq<Seq<u8>>) -> bool {
    let j = find_kw(toks, kw_version(), false, 0);
    j >= 0 && uint_prefix_val(toks[j + 1]) <= u32::MAX
}

/// The parsed version number.
pub open spec fn spec_version(toks: Seq<Seq<u8>>) -> nat {
    uint_prefix_val(toks[find_kw(toks, kw_version(), false, 0) + 1])
}

/// A fixed-point header under keyword `kw` parses.
pub open spec fn spec_fixed_hdr_ok(toks: Seq<Seq<u8>>, kw: Seq<u8>) -> bool {
    let j = find_kw(toks, kw, true, 0);
    j >= 0 && fixed_ok(toks[j + 1])
}

/// The parsed value of a fixed-point header under keyword `kw`.
pub open spec fn spec_fixed_hdr(toks: Seq<Seq<u8>>, kw: Seq<u8>) -> nat {
    fixed_val(fixed_prefix(toks[find_kw(toks, kw, true, 0) + 1]))
}

/// All four header lines parse.
pub open spec fn spec_header_ok(toks: Seq<Seq<u8>>) -> bool {
    &&& spec_version_ok(toks)
    &&& spec_fixed_hdr_ok(toks, kw_bpm())
    &&& spec_fixed_hdr_ok(toks, kw_page_shift())
    &&& spec_fixed_hdr_ok(toks, kw_page_size())
}

/// The parse failure message: the first header, in order, that fails.
pub open spec fn spec_parse_err(toks: Seq<Seq<u8>>) -> Seq<char> {
    if !spec_version_ok(toks) {
        "Failed to parse VERSION"@
    } else if !spec_fixed_hdr_ok(toks, kw_bpm()) {
        "Failed to parse BPM"@
    } else if !spec_fixed_hdr_ok(toks, kw_page_shift()) {
        "Failed to parse PAGE_SHIFT"@
    } else {
        "Failed to parse PAGE_SIZE"@
    }
}

/// A note line occurrence at token `i`: the case-insensitive keyword, then
/// an id and three fixed-point numbers, all parsing within range.
pub open spec fn note_match(toks: Seq<Seq<u8>>, i: int) -> bool {
    &&& 0 <= i
    &&& i + 4 < toks.len()
    &&& is_note_kw(toks[i])
    &&& digit_prefix_len(toks[i + 1]) >= 1
    &&& uint_prefix_val(toks[i + 1]) <= u32::MAX
    &&& fixed_prefix_len(toks[i + 2]) >= 1
    &&& fixed_ok(toks[i + 2])
    &&& fixed_prefix_len(toks[i + 3]) >= 1
    &&& fixed_ok(toks[i + 3])
    &&& fixed_prefix_len(toks[i + 4]) >= 1
    &&& fixed_ok(toks[i + 4])
}

/// The note read from a matching occurrence at token `i`.
pub open spec fn spec_note_at(toks: Seq<Seq<u8>>, i: int) -> Cytus1ChartNote {
    Cytus1ChartNote {
        id: uint_prefix_val(toks[i + 1]) as u32,
        time_micros: fixed_val(fixed_prefix(toks[i + 2])) as u64,
        x_micros: fixed_val(fixed_prefix(toks[i + 3])) as u64,
        hold_length_micros: fixed_val(fixed_prefix(toks[i + 4])) as u64,
    }
}

/// All notes read from occurrences at token `i` on, in order.
pub open spec fn spec_notes_from(toks: Seq<Seq<u8>>, i: int) -> Seq<Cytus1ChartNote>
    decreases toks.len() - i,
{
    if !(0 <= i < toks.len()) {
        Seq::empty()
    } else if note_match(toks, i) {
        seq![spec_note_at(toks, i)] + spec_notes_from(toks, i + 1)
    } else {
        spec_notes_from(toks, i + 1)
    }
}

/// The maximal run of id tokens from token `j` on.
pub open spec fn link_run(toks: Seq<Seq<u8>>, j: int) -> Seq<u32>
    decreases toks.len() - j,
{
    if !(0 <= j < toks.len()) {
        Seq::empty()
    } else if link_id_ok(toks[j]) {
        seq![digits_val(toks[j]) as u32] + link_run(toks, j + 1)
    } else {
        Seq::empty()
    }
}

/// A link line occurrence at token `i`: the keyword followed by at least one
/// id token.
pub open spec fn link_match(toks: Seq<Seq<u8>>, i: int) -> bool {
    &&& 0 <= i
    &&& i + 1 < toks.len()
    &&& toks[i] == kw_link()
    &&& link_id_ok(toks[i + 1])
}

/// All chains read from occurrences at token `i` on, in order.
pub open spec fn spec_links_from(toks: Seq<Seq<u8>>, i: int) -> Seq<Seq<u32>>
    decreases toks.len() - i,
{
    if !(0 <= i < toks.len()) {
        Seq::empty()
    } else if link_match(toks, i) {
        seq![link_run(toks, i + 1)] + spec_links_from(toks, i + 1)
    } else {
        spec_links_from(toks, i + 1)
    }
}

/// Compares two byte strings for equality.
fn eq_bytes(a: &[u8], b: &[u8]) -> (r: bool)
    ensures
        r == (a@ == b@),
{
    if a.len() != b.len() {
        proof {
            assert(a@ != b@);
        }
        return false;
    }
    let mut i: usize = 0;
    while i < a.len()
        invariant
            a@.len() == b@.len(),
            i <= a@.len(),
            forall|j: int| 0 <= j < i ==> a@[j] == b@[j],
        decreases a.len() - i,
    {
        if a[i] != b[i] {
            proof {
                assert(a@[i as int] != b@[i as int]);
            }
            return false;
        }
        i = i + 1;
    }
    proof {
        assert(a@ =~= b@);
    }
    true
}

/// Length of the digit prefix of `t`.
fn digit_prefix(t: &[u8]) -> (k: usize)
    ensures
        k == digit_prefix_len(t@),
        k <= t@.len(),
{
    let mut i: usize = 0;
    while i < t.len() && 48 <= t[i] && t[i] <= 57
        invariant
            i <= t@.len(),
            forall|j: int| 0 <= j < i ==> is_digit(#[trigger] t@[j]),
        decreases t.len() - i,
    {
        i = i + 1;
    }
    proof {
        lemma_digit_prefix_len(t@, i as nat);
    }
    i
}

/// Length of the digit-or-dot prefix of `t`.
fn fixed_prefix_exec(t: &[u8]) -> (k: usize)
    ensures
        k == fixed_prefix_len(t@),
        k <= t@.len(),
{
    let mut i: usize = 0;
    while i < t.len() && (t[i] == 46 || (48 <= t[i] && t[i] <= 57))
        invariant
            i <= t@.len(),
            forall|j: int| 0 <= j < i ==> is_fixed_byte(#[trigger] t@[j]),
        decreases t.len() - i,
    {
        i = i + 1;
    }
    proof {
        lemma_fixed_prefix_len(t@, i as nat);
    }
    i
}

/// A run of digits is worth less than ten to its length.
proof fn lemma_digits_val_bound(s: Seq<u8>)
    requires
        forall|j: int| 0 <= j < s.len() ==> is_digit(#[trigger] s[j]),
    ensures
        digits_val(s) < pow10(s.len()),
    decreases s.len(),
{
    if s.len() == 0 {
    } else {
        lemma_digits_val_bound(s.drop_last());
        assert(pow10(s.len()) == 10 * pow10((s.len() - 1) as nat));
        assert(digit_val(s.last()) <= 9);
    }
}

/// Reads the first `k` bytes of `t` (all digits) in base ten, detecting
/// values that do not fit.
fn parse_digits(t: &[u8], k: usize) -> (r: Option<u64>)
    requires
        k <= t@.len(),
        forall|j: int| 0 <= j < k ==> is_digit(#[trigger] t@[j]),
    ensures
        match r {
            Some(v) => v as nat == digits_val(t@.take(k as int)),
            None => digits_val(t@.take(k as int)) > u64::MAX,
        },
{
    let mut acc: u64 = 0;
    let mut ok = true;
    let mut j: usize = 0;
    proof {
        assert(t@.take(0) =~= Seq::<u8>::empty());
    }
    while j < k
        invariant
            k <= t@.len(),
            j <= k,
            forall|jj: int| 0 <= jj < k ==> is_digit(#[trigger] t@[jj]),
            ok ==> acc as nat == digits_val(t@.take(j as int)),
            !ok ==> digits_val(t@.take(j as int)) > u64::MAX,
        decreases k - j,
    {
        let d = t[j] - 48;
        proof {
            assert(t@.take(j as int + 1).drop_last() =~= t@.take(j as int));
            assert(t@.take(j as int + 1).last() == t@[j as int]);
            assert(digits_val(t@.take(j as int + 1)) == digits_val(t@.take(j as int)) * 10
                + digit_val(t@[j as int]));
        }
        if ok {
            if acc > u64::MAX / 10 {
                ok = false;
            } else if acc == u64::MAX / 10 && d > 5 {
                ok = false;
            } else {
                acc = acc * 10 + d as u64;
            }
        }
        j = j + 1;
    }
    if ok {
        Some(acc)
    } else {
        None
    }
}

/// Multiplier for missing fractional digits.
fn pow10_exec(e: usize) -> (r: u64)
    requires
        e <= 6,
    ensures
        r as nat == pow10(e as nat),
        r <= 1000000,
{
    let mut r: u64 = 1;
    let mut j: usize = 0;
    proof {
        reveal_with_fuel(pow10, 7);
    }
    while j < e
        invariant
            j <= e <= 6,
            r as nat == pow10(j as nat),
            r <= 1000000,
        decreases e - j,
    {
        r = r * 10;
        j = j + 1;
        proof {
            reveal_with_fuel(pow10, 7);
        }
    }
    r
}

/// Every byte before the digit prefix boundary is a digit, and the boundary
/// byte, if any, is not.
proof fn lemma_digit_prefix_bytes(t: Seq<u8>)
    ensures
        digit_prefix_len(t) <= t.len(),
        forall|j: int| 0 <= j < digit_prefix_len(t) ==> is_digit(#[trigger] t[j]),
        digit_prefix_len(t) < t.len() ==> !is_digit(t[digit_prefix_len(t) as int]),
    decreases t.len(),
{
    if t.len() == 0 || !is_digit(t[0]) {
    } else {
        lemma_digit_prefix_bytes(t.skip(1));
        assert forall|j: int| 1 <= j < digit_prefix_len(t) implies is_digit(#[trigger] t[j]) by {
            assert(is_digit(t.skip(1)[j - 1]));
        };
    }
}

/// Every byte before the fixed prefix boundary is a digit or dot, and the
/// boundary byte, if any, is neither.
proof fn lemma_fixed_prefix_bytes(t: Seq<u8>)
    ensures
        fixed_prefix_len(t) <= t.len(),
        forall|j: int| 0 <= j < fixed_prefix_len(t) ==> is_fixed_byte(#[trigger] t[j]),
        fixed_prefix_len(t) < t.len() ==> !is_fixed_byte(t[fixed_prefix_len(t) as int]),
    decreases t.len(),
{
    if t.len() == 0 || !is_fixed_byte(t[0]) {
    } else {
        lemma_fixed_prefix_bytes(t.skip(1));
        assert forall|j: int| 1 <= j < fixed_prefix_len(t) implies is_fixed_byte(
            #[trigger] t[j],
        ) by {
            assert(is_fixed_byte(t.skip(1)[j - 1]));
        };
    }
}

/// Reads the fractional digits between positions `kd + 1` and `kf`, of
/// which only the first six count, scaled to millionths.
fn parse_frac(t: &[u8], kd: usize, kf: usize) -> (r: u64)
    requires
        kd < kf <= t@.len(),
        forall|jj: int| kd < jj < kf ==> is_digit(#[trigger] t@[jj]),
    ensures
        ({
            let frac = t@.subrange(kd as int + 1, kf as int);
            let m = if frac.len() < 6 {
                frac.len() as int
            } else {
                6
            };
            &&& r as nat == digits_val(frac.take(m)) * pow10((6 - m) as nat)
            &&& r < 1000000
        }),
{
    let ghost frac = t@.subrange(kd as int + 1, kf as int);
    let nfrac = kf - kd - 1;
    let lim = if nfrac < 6 {
        nfrac
    } else {
        6
    };
    proof {
        assert(frac.len() == nfrac);
        assert(frac.take(0) =~= Seq::<u8>::empty());
    }
    let mut frac_v: u64 = 0;
    let mut m: usize = 0;
    while m < lim
        invariant
            kd < kf <= t@.len(),
            lim <= nfrac == kf - kd - 1,
            lim <= 6,
            m <= lim,
            frac == t@.subrange(kd as int + 1, kf as int),
            forall|jj: int| kd < jj < kf ==> is_digit(#[trigger] t@[jj]),
            frac_v as nat == digits_val(frac.take(m as int)),
            frac_v < 1000000,
        decreases lim - m,
    {
        proof {
            assert(frac.take(m as int + 1).drop_last() =~= frac.take(m as int));
            assert(frac.take(m as int + 1).last() == frac[m as int]);
            assert(frac[m as int] == t@[kd as int + 1 + m]);
            assert(forall|jj: int|
                0 <= jj < frac.take(m as int + 1).len() ==> is_digit(
                    #[trigger] frac.take(m as int + 1)[jj],
                ));
            lemma_digits_val_bound(frac.take(m as int + 1));
            assert(pow10(frac.take(m as int + 1).len()) <= pow10(6)) by {
                lemma_pow10_le(frac.take(m as int + 1).len(), 6);
            };
            reveal_with_fuel(pow10, 7);
        }
        let d = t[kd + 1 + m] - 48;
        frac_v = frac_v * 10 + d as u64;
        m = m + 1;
    }
    let mult = pow10_exec(6 - lim);
    proof {
        assert(forall|jj: int|
            0 <= jj < frac.take(lim as int).len() ==> is_digit(#[trigger] frac.take(lim as int)[jj]));
        lemma_digits_val_bound(frac.take(lim as int));
        assert(frac.take(lim as int).len() == lim);
        lemma_pow10_mul(lim as nat, (6 - lim) as nat);
        assert((frac_v as nat) * pow10((6 - lim) as nat) < pow10(6));
        reveal_with_fuel(pow10, 7);
        assert((frac_v as nat) * (mult as nat) < 1000000);
    }
    let r = frac_v * mult;
    proof {
        assert(lim as int == (if frac.len() < 6 {
            frac.len() as int
        } else {
            6
        }));
    }
    r
}

/// Parses the numeric prefix of `t` as a fixed-point value in millionths.
/// `None` when the prefix is empty, malformed, or out of range.
#[verifier::rlimit(50)]
fn parse_fixed(t: &[u8]) -> (r: Option<u64>)
    ensures
        match r {
            Some(v) => {
                &&& fixed_prefix_len(t@) >= 1
                &&& fixed_ok(t@)
                &&& v as nat == fixed_val(fixed_prefix(t@))
            },
            None => !(fixed_prefix_len(t@) >= 1 && fixed_ok(t@)),
        },
{
    let kf = fixed_prefix_exec(t);
    if kf == 0 {
        return None;
    }
    let ghost p = fixed_prefix(t@);
    proof {
        assert(p =~= t@.take(kf as int));
        lemma_fixed_prefix_bytes(t@);
        lemma_digit_prefix_bytes(t@);
    }
    // count the dots in the prefix
    let mut dots: usize = 0;
    let mut j: usize = 0;
    proof {
        assert(t@.take(0) =~= Seq::<u8>::empty());
    }
    while j < kf
        invariant
            kf <= t@.len(),
            j <= kf,
            dots <= j,
            dots as nat == count_dots(t@.take(j as int)),
        decreases kf - j,
    {
        proof {
            assert(t@.take(j as int + 1).drop_last() =~= t@.take(j as int));
            assert(t@.take(j as int + 1).last() == t@[j as int]);
        }
        if t[j] == 46 {
            dots = dots + 1;
        }
        j = j + 1;
    }
    if dots > 1 || dots >= kf {
        proof {
            assert(count_dots(p) == dots);
            if dots >= kf {
                // all prefix bytes would be dots only if no digit is present
                assert(!is_fixed_token(p));
            }
            assert(!is_fixed_token(p));
        }
        return None;
    }
    // digits of the integer part
    let kd = digit_prefix(t);
    proof {
        assert(kd <= kf) by {
            if kd > kf {
                assert(is_digit(t@[kf as int]));
            }
        };
        assert(digit_prefix_len(p) == kd) by {
            assert(forall|jj: int| 0 <= jj < kd ==> p[jj] == t@[jj] && is_digit(#[trigger] p[jj]));
            if kd < kf {
                assert(p[kd as int] == t@[kd as int]);
                assert(!is_digit(p[kd as int]));
            }
            lemma_digit_prefix_len(p, kd as nat);
        };
    }
    let int_v = match parse_digits(t, kd) {
        Some(v) => v,
        None => {
            proof {
                lemma_fixed_val_parts(p);
                assert(p.take(kd as int) =~= t@.take(kd as int));
                assert(fixed_val(p) > u64::MAX);
            }
            return None;
        },
    };
    // fractional digits, of which at most six are read
    let ghost frac = if kd < p.len() {
        p.skip(kd as int + 1)
    } else {
        Seq::<u8>::empty()
    };
    let ghost mspec = if frac.len() < 6 {
        frac.len() as int
    } else {
        6
    };
    let mut frac_v: u64 = 0;
    if kd < kf {
        // the byte at kd is the single dot; all later prefix bytes are digits
        proof {
            assert(is_fixed_byte(t@[kd as int]));
            assert(t@[kd as int] == 46);
            assert(forall|jj: int| kd < jj < kf ==> is_digit(#[trigger] t@[jj])) by {
                assert forall|jj: int| kd < jj < kf implies is_digit(#[trigger] t@[jj]) by {
                    assert(is_fixed_byte(t@[jj]));
                    if !is_digit(t@[jj]) {
                        assert(t@[jj] == 46);
                        assert(p[kd as int] == 46);
                        assert(p[jj] == 46);
                        lemma_two_dots(p, kd as int, jj);
                    }
                };
            };
            assert(frac =~= t@.subrange(kd as int + 1, kf as int));
        }
        frac_v = parse_frac(t, kd, kf);
        proof {
            let sub = t@.subrange(kd as int + 1, kf as int);
            assert(frac == sub);
            assert(frac.len() == sub.len());
            assert(mspec == (if sub.len() < 6 {
                sub.len() as int
            } else {
                6
            }));
            assert(frac.take(mspec) == sub.take(mspec));
            assert(frac_v as nat == digits_val(frac.take(mspec)) * pow10((6 - mspec) as nat));
            assert(frac_v < 1000000);
        }
    } else {
        proof {
            assert(frac.len() == 0);
            assert(mspec == 0);
            assert(frac.take(0) =~= Seq::<u8>::empty());
            assert(digits_val(Seq::<u8>::empty()) == 0);
            assert(digits_val(frac.take(mspec)) == 0);
            assert(digits_val(frac.take(mspec)) * pow10((6 - mspec) as nat) == 0)
                by (nonlinear_arith)
                requires
                    digits_val(frac.take(mspec)) == 0,
            ;
            assert(frac_v as nat == digits_val(frac.take(mspec)) * pow10((6 - mspec) as nat));
            assert(frac_v < 1000000);
        }
    }
    // combine, watching the overall range
    if int_v > (u64::MAX - frac_v) / 1000000 {
        proof {
            lemma_fixed_val_parts(p);
            assert(p.take(kd as int) =~= t@.take(kd as int));
            assert((int_v as nat) * 1000000 + (frac_v as nat) > u64::MAX) by (nonlinear_arith)
                requires
                    int_v as nat > (u64::MAX - frac_v as nat) / 1000000,
                    frac_v < 1000000,
            ;
            assert(fixed_val(p) > u64::MAX);
        }
        return None;
    }
    proof {
        lemma_fixed_val_parts(p);
        assert(p.take(kd as int) =~= t@.take(kd as int));
        assert((int_v as nat) * 1000000 + (frac_v as nat) <= u64::MAX) by (nonlinear_arith)
            requires
                int_v as nat <= (u64::MAX - frac_v as nat) / 1000000,
                frac_v < 1000000,
        ;
        assert(is_fixed_token(p)) by {
            assert forall|jj: int| 0 <= jj < p.len() implies is_fixed_byte(#[trigger] p[jj]) by {
                assert(p[jj] == t@[jj]);
            };
            assert(count_dots(p) <= 1);
            assert(count_dots(p) < p.len());
        };
    }
    Some(int_v * 1000000 + frac_v)
}

/// Ten to a smaller power divides ten to a larger one.
proof fn lemma_pow10_le(a: nat, b: nat)
    requires
        a <= b,
    ensures
        pow10(a) <= pow10(b),
        pow10(a) >= 1,
    decreases b,
{
    if a < b {
        lemma_pow10_le(a, (b - 1) as nat);
    } else if b > 0 {
        lemma_pow10_le((a - 1) as nat, (b - 1) as nat);
    }
}

/// The product bound: a value under `pow10(a)` times `pow10(b)` stays under
/// `pow10(a + b)`.
proof fn lemma_pow10_mul(a: nat, b: nat)
    ensures
        forall|v: nat| v < pow10(a) ==> #[trigger] (v * pow10(b)) < pow10(a + b),
    decreases b,
{
    if b == 0 {
        assert(forall|v: nat| v < pow10(a) ==> #[trigger] (v * pow10(0)) < pow10(a + 0)) by {
            assert(pow10(0) == 1);
            assert(forall|v: nat| #[trigger] (v * 1) == v);
        };
    } else {
        lemma_pow10_mul(a, (b - 1) as nat);
        assert(pow10(b) == 10 * pow10((b - 1) as nat));
        assert(pow10(a + b) == 10 * pow10((a + b - 1) as nat));
        assert(forall|v: nat| v < pow10(a) ==> #[trigger] (v * pow10(b)) < pow10(a + b)) by {
            assert(forall|v: nat|
                v < pow10(a) ==> #[trigger] (v * pow10(b)) == 10 * (v * pow10((b - 1) as nat)))
                by (nonlinear_arith)
                requires
                    pow10(b) == 10 * pow10((b - 1) as nat),
            ;
        };
    }
}

/// A string with dots at two distinct positions counts at least two dots.
proof fn lemma_two_dots(p: Seq<u8>, i: int, j: int)
    requires
        0 <= i < j < p.len(),
        p[i] == 46,
        p[j] == 46,
    ensures
        count_dots(p) >= 2,
    decreases p.len(),
{
    if j == p.len() - 1 {
        lemma_one_dot(p.drop_last(), i);
    } else {
        lemma_two_dots(p.drop_last(), i, j);
    }
}

/// A string containing a dot counts at least one dot.
proof fn lemma_one_dot(p: Seq<u8>, i: int)
    requires
        0 <= i < p.len(),
        p[i] == 46,
    ensures
        count_dots(p) >= 1,
    decreases p.len(),
{
    if i < p.len() - 1 {
        lemma_one_dot(p.drop_last(), i);
    }
}

/// Unfolds `fixed_val` into its integer and fractional parts.
proof fn lemma_fixed_val_parts(p: Seq<u8>)
    ensures
        fixed_val(p) == digits_val(p.take(digit_prefix_len(p) as int)) * 1000000 + digits_val(
            (if digit_prefix_len(p) < p.len() {
                p.skip(digit_prefix_len(p) as int + 1)
            } else {
                Seq::<u8>::empty()
            }).take(
                if (if digit_prefix_len(p) < p.len() {
                    p.skip(digit_prefix_len(p) as int + 1)
                } else {
                    Seq::<u8>::empty()
                }).len() < 6 {
                    (if digit_prefix_len(p) < p.len() {
                        p.skip(digit_prefix_len(p) as int + 1)
                    } else {
                        Seq::<u8>::empty()
                    }).len() as int
                } else {
                    6
                },
            ),
        ) * pow10(
            (6 - (if (if digit_prefix_len(p) < p.len() {
                p.skip(digit_prefix_len(p) as int + 1)
            } else {
                Seq::<u8>::empty()
            }).len() < 6 {
                (if digit_prefix_len(p) < p.len() {
                    p.skip(digit_prefix_len(p) as int + 1)
                } else {
                    Seq::<u8>::empty()
                }).len() as int
            } else {
                6
            })) as nat,
        ),
{
}

/// Finds the first token from the start that equals `kw` and is followed by
/// a token with a digit prefix (`fixed` false) or digit-or-dot prefix
/// (`fixed` true).
fn find_kw_exec(toks: &Vec<Vec<u8>>, kw: &Vec<u8>, fixed: bool) -> (r: Option<usize>)
    ensures
        match r {
            Some(j) => find_kw(toks.deep_view(), kw@, fixed, 0) == j as int && j + 1
                < toks@.len(),
            None => find_kw(toks.deep_view(), kw@, fixed, 0) == -1,
        },
{
    let ghost tv = toks.deep_view();
    let mut i: usize = 0;
    while i < toks.len()
        invariant
            tv == toks.deep_view(),
            tv.len() == toks@.len(),
            i <= toks@.len(),
            find_kw(tv, kw@, fixed, 0) == find_kw(tv, kw@, fixed, i as int),
        decreases toks.len() - i,
    {
        proof {
            assert(tv[i as int] == toks@[i as int]@);
        }
        if eq_bytes(toks[i].as_slice(), kw.as_slice()) && i + 1 < toks.len() {
            proof {
                assert(tv[i as int + 1] == toks@[i as int + 1]@);
            }
            let sel = if fixed {
                fixed_prefix_exec(toks[i + 1].as_slice()) >= 1
            } else {
                digit_prefix(toks[i + 1].as_slice()) >= 1
            };
            if sel {
                proof {
                    assert(find_kw(tv, kw@, fixed, i as int) == i);
                }
                return Some(i);
            }
        }
        proof {
            assert(find_kw(tv, kw@, fixed, i as int) == find_kw(tv, kw@, fixed, i as int + 1));
        }
        i = i + 1;
    }
    proof {
        assert(find_kw(tv, kw@, fixed, i as int) == -1);
    }
    None
}

/// True when the token is the note keyword, case-insensitively.
fn is_note_kw_exec(t: &[u8]) -> (r: bool)
    ensures
        r == is_note_kw(t@),
{
    if t.len() != 4 {
        return false;
    }
    let up = |b: u8| -> (r: u8)
        ensures
            r == upper_byte(b),
        {
            if 97 <= b && b <= 122 {
                b - 32
            } else {
                b
            }
        };
    up(t[0]) == 78 && up(t[1]) == 79 && up(t[2]) == 84 && up(t[3]) == 69
}

/// True when the token can serve as a chain id.
fn link_id_ok_exec(t: &[u8]) -> (r: Option<u32>)
    ensures
        match r {
            Some(v) => link_id_ok(t@) && v as nat == digits_val(t@),
            None => !link_id_ok(t@),
        },
{
    if t.len() == 0 {
        return None;
    }
    let k = digit_prefix(t);
    if k != t.len() {
        return None;
    }
    proof {
        lemma_digit_prefix_bytes(t@);
        assert(t@.take(t@.len() as int) =~= t@);
    }
    match parse_digits(t, k) {
        Some(v) => {
            if v <= 0xffff_ffff {
                Some(v as u32)
            } else {
                None
            }
        },
        None => None,
    }
}

impl Cytus1Chart {
    /// Parses a chart from its line-oriented text form. Arbitrary
    /// surrounding text is tolerated: each field is read from the first
    /// occurrence of its keyword followed by a numeric token, notes from
    /// every occurrence of the case-insensitive note keyword followed by
    /// four numeric tokens, chains from every occurrence of the link
    /// keyword followed by a run of ids. A missing or malformed header is
    /// the only error.
    pub fn from_text(s: &[u8]) -> (r: Result<Cytus1Chart, String>)
    ensures
        ({
            let toks = spec_tokenize(s@);
            match r {
                Ok(c) => {
                    &&& spec_header_ok(toks)
                    &&& c.version as nat == spec_version(toks)
                    &&& c.bpm_micros as nat == spec_fixed_hdr(toks, kw_bpm())
                    &&& c.page_shift_micros as nat == spec_fixed_hdr(toks, kw_page_shift())
                    &&& c.page_size_micros as nat == spec_fixed_hdr(toks, kw_page_size())
                    &&& c.notes@ == spec_notes_from(toks, 0)
                    &&& links_view(c.links@) == spec_links_from(toks, 0)
                },
                Err(e) => !spec_header_ok(toks) && e@ == spec_parse_err(toks),
            }
        }),
{
    let toks = tokenize(s);
    let ghost tv = spec_tokenize(s@);
    proof {
        assert(tv == toks.deep_view());
    }
    let mut kwv: Vec<u8> = Vec::new();
    push_kw_version(&mut kwv);
    let mut kwb: Vec<u8> = Vec::new();
    push_kw_bpm(&mut kwb);
    let mut kwps: Vec<u8> = Vec::new();
    push_kw_page_shift(&mut kwps);
    let mut kwpg: Vec<u8> = Vec::new();
    push_kw_page_size(&mut kwpg);
    let mut kwl: Vec<u8> = Vec::new();
    push_kw_link(&mut kwl);
    let ntoks = toks.len();
    proof {
        assert(kwv@ =~= kw_version());
        assert(kwb@ =~= kw_bpm());
        assert(kwps@ =~= kw_page_shift());
        assert(kwpg@ =~= kw_page_size());
        assert(kwl@ =~= kw_link());
        assert(ntoks == toks@.len());
    }

    // header: version
    let version: u32 = match find_kw_exec(&toks, &kwv, false) {
        Some(j) => {
            proof {
                assert(tv[j as int + 1] == toks@[j as int + 1]@);
            }
            let k = digit_prefix(toks[j + 1].as_slice());
            proof {
                lemma_digit_prefix_bytes(toks@[j as int + 1]@);
            }
            match parse_digits(toks[j + 1].as_slice(), k) {
                Some(v) => {
                    if v <= 0xffff_ffff {
                        v as u32
                    } else {
                        return Err(String::from_str("Failed to parse VERSION"));
                    }
                },
                None => {
                    return Err(String::from_str("Failed to parse VERSION"));
                },
            }
        },
        None => {
            return Err(String::from_str("Failed to parse VERSION"));
        },
    };
    proof {
        assert(spec_version_ok(tv));
        assert(version as nat == spec_version(tv));
    }
    // header: bpm, page shift, page size
    let bpm: u64 = match find_kw_exec(&toks, &kwb, true) {
        Some(j) => {
            proof {
                assert(tv[j as int + 1] == toks@[j as int + 1]@);
            }
            match parse_fixed(toks[j + 1].as_slice()) {
                Some(v) => v,
                None => {
                    return Err(String::from_str("Failed to parse BPM"));
                },
            }
        },
        None => {
            return Err(String::from_str("Failed to parse BPM"));
        },
    };
    proof {
        assert(spec_fixed_hdr_ok(tv, kw_bpm()));
        assert(bpm as nat == spec_fixed_hdr(tv, kw_bpm()));
    }
    let page_shift: u64 = match find_kw_exec(&toks, &kwps, true) {
        Some(j) => {
            proof {
                assert(tv[j as int + 1] == toks@[j as int + 1]@);
            }
            match parse_fixed(toks[j + 1].as_slice()) {
                Some(v) => v,
                None => {
                    return Err(String::from_str("Failed to parse PAGE_SHIFT"));
                },
            }
        },
        None => {
            return Err(String::from_str("Failed to parse PAGE_SHIFT"));
        },
    };
    proof {
        assert(spec_fixed_hdr_ok(tv, kw_page_shift()));
        assert(page_shift as nat == spec_fixed_hdr(tv, kw_page_shift()));
    }
    let page_size: u64 = match find_kw_exec(&toks, &kwpg, true) {
        Some(j) => {
            proof {
                assert(tv[j as int + 1] == toks@[j as int + 1]@);
            }
            match parse_fixed(toks[j + 1].as_slice()) {
                Some(v) => v,
                None => {
                    return Err(String::from_str("Failed to parse PAGE_SIZE"));
                },
            }
        },
        None => {
            return Err(String::from_str("Failed to parse PAGE_SIZE"));
        },
    };
    proof {
        assert(spec_fixed_hdr_ok(tv, kw_page_size()));
        assert(page_size as nat == spec_fixed_hdr(tv, kw_page_size()));
    }
    // notes
    let mut notes: Vec<Cytus1ChartNote> = Vec::new();
    let mut i: usize = 0;
    proof {
        assert(notes@ + spec_notes_from(tv, 0) =~= spec_notes_from(tv, 0));
    }
    while i < toks.len()
        invariant
            tv == toks.deep_view(),
            tv.len() == toks@.len(),
            i <= toks@.len(),
            spec_notes_from(tv, 0) == notes@ + spec_notes_from(tv, i as int),
        decreases toks.len() - i,
    {
        let ghost prev = notes@;
        proof {
            assert(tv[i as int] == toks@[i as int]@);
        }
        if toks.len() - i > 4 && is_note_kw_exec(toks[i].as_slice()) {
            proof {
                assert(tv[i as int + 1] == toks@[i as int + 1]@);
                assert(tv[i as int + 2] == toks@[i as int + 2]@);
                assert(tv[i as int + 3] == toks@[i as int + 3]@);
                assert(tv[i as int + 4] == toks@[i as int + 4]@);
            }
            let k1 = digit_prefix(toks[i + 1].as_slice());
            proof {
                lemma_digit_prefix_bytes(toks@[i as int + 1]@);
            }
            let id_opt: Option<u32> = if k1 >= 1 {
                match parse_digits(toks[i + 1].as_slice(), k1) {
                    Some(v) => {
                        if v <= 0xffff_ffff {
                            Some(v as u32)
                        } else {
                            None
                        }
                    },
                    None => None,
                }
            } else {
                None
            };
            match id_opt {
                Some(id) => {
                    match parse_fixed(toks[i + 2].as_slice()) {
                        Some(time_v) => {
                            match parse_fixed(toks[i + 3].as_slice()) {
                                Some(x_v) => {
                                    match parse_fixed(toks[i + 4].as_slice()) {
                                        Some(hold_v) => {
                                            proof {
                                                assert(note_match(tv, i as int));
                                            }
                                            notes.push(
                                                Cytus1ChartNote {
                                                    id,
                                                    time_micros: time_v,
                                                    x_micros: x_v,
                                                    hold_length_micros: hold_v,
                                                },
                                            );
                                            proof {
                                                assert(notes@.last() == spec_note_at(
                                                    tv,
                                                    i as int,
                                                ));
                                                assert(notes@ =~= prev + seq![
                                                    spec_note_at(tv, i as int),
                                                ]);
                                                assert(prev + (seq![spec_note_at(tv, i as int)]
                                                    + spec_notes_from(tv, i as int + 1)) =~= (prev
                                                    + seq![spec_note_at(tv, i as int)])
                                                    + spec_notes_from(tv, i as int + 1));
                                            }
                                        },
                                        None => {
                                            proof {
                                                assert(!note_match(tv, i as int));
                                            }
                                        },
                                    }
                                },
                                None => {
                                    proof {
                                        assert(!note_match(tv, i as int));
                                    }
                                },
                            }
                        },
                        None => {
                            proof {
                                assert(!note_match(tv, i as int));
                            }
                        },
                    }
                },
                None => {
                    proof {
                        assert(!note_match(tv, i as int));
                    }
                },
            }
        } else {
            proof {
                assert(!note_match(tv, i as int));
            }
        }
        i = i + 1;
    }
    proof {
        assert(spec_notes_from(tv, i as int) =~= Seq::<Cytus1ChartNote>::empty());
        assert(notes@ =~= spec_notes_from(tv, 0));
    }
    // links
    let mut links: Vec<Cytus1ChartLink> = Vec::new();
    let mut i2: usize = 0;
    proof {
        assert(links_view(links@) + spec_links_from(tv, 0) =~= spec_links_from(tv, 0));
    }
    while i2 < toks.len()
        invariant
            tv == toks.deep_view(),
            tv.len() == toks@.len(),
            kwl@ == kw_link(),
            i2 <= toks@.len(),
            spec_links_from(tv, 0) == links_view(links@) + spec_links_from(tv, i2 as int),
        decreases toks.len() - i2,
    {
        let ghost prevl = links_view(links@);
        proof {
            assert(tv[i2 as int] == toks@[i2 as int]@);
        }
        if eq_bytes(toks[i2].as_slice(), kwl.as_slice()) && i2 + 1 < toks.len() {
            // collect the run of id tokens
            let mut ids: Vec<u32> = Vec::new();
            let mut j: usize = i2 + 1;
            let mut running = true;
            proof {
                assert(ids@ + link_run(tv, j as int) =~= link_run(tv, i2 as int + 1));
            }
            while running && j < toks.len()
                invariant
                    tv == toks.deep_view(),
                    tv.len() == toks@.len(),
                    i2 + 1 <= j <= toks@.len(),
                    running ==> link_run(tv, i2 as int + 1) == ids@ + link_run(tv, j as int),
                    !running ==> ids@ == link_run(tv, i2 as int + 1),
                decreases toks.len() - j, (if running { 1int } else { 0int }),
            {
                proof {
                    assert(tv[j as int] == toks@[j as int]@);
                }
                match link_id_ok_exec(toks[j].as_slice()) {
                    Some(v) => {
                        let ghost previds = ids@;
                        ids.push(v);
                        proof {
                            assert(ids@ =~= previds + seq![digits_val(tv[j as int]) as u32]);
                            assert(previds + (seq![digits_val(tv[j as int]) as u32] + link_run(
                                tv,
                                j as int + 1,
                            )) =~= (previds + seq![digits_val(tv[j as int]) as u32]) + link_run(
                                tv,
                                j as int + 1,
                            ));
                        }
                        j = j + 1;
                    },
                    None => {
                        proof {
                            assert(link_run(tv, j as int) =~= Seq::<u32>::empty());
                            assert(ids@ + link_run(tv, j as int) =~= ids@);
                        }
                        running = false;
                    },
                }
            }
            proof {
                if running {
                    assert(link_run(tv, j as int) =~= Seq::<u32>::empty());
                    assert(ids@ + link_run(tv, j as int) =~= ids@);
                }
                assert(ids@ == link_run(tv, i2 as int + 1));
            }
            if ids.len() > 0 {
                proof {
                    assert(link_id_ok(tv[i2 as int + 1])) by {
                        if !link_id_ok(tv[i2 as int + 1]) {
                            assert(link_run(tv, i2 as int + 1) =~= Seq::<u32>::empty());
                        }
                    };
                    assert(link_match(tv, i2 as int));
                }
                links.push(Cytus1ChartLink { link: ids });
                proof {
                    assert(links_view(links@) =~= prevl + seq![link_run(tv, i2 as int + 1)]);
                    assert(prevl + (seq![link_run(tv, i2 as int + 1)] + spec_links_from(
                        tv,
                        i2 as int + 1,
                    )) =~= (prevl + seq![link_run(tv, i2 as int + 1)]) + spec_links_from(
                        tv,
                        i2 as int + 1,
                    ));
                }
            } else {
                proof {
                    assert(!link_match(tv, i2 as int)) by {
                        if link_match(tv, i2 as int) {
                            assert(link_run(tv, i2 as int + 1).len() >= 1);
                        }
                    };
                }
            }
        } else {
            proof {
                assert(!link_match(tv, i2 as int));
            }
        }
        i2 = i2 + 1;
    }
    proof {
        assert(spec_links_from(tv, i2 as int) =~= Seq::<Seq<u32>>::empty());
        assert(links_view(links@) =~= spec_links_from(tv, 0));
    }
    Ok(
        Cytus1Chart {
            version,
            bpm_micros: bpm,
            page_shift_micros: page_shift,
            page_size_micros: page_size,
            notes,
            links,
        },
    )
}
}

/// All bytes of a join are below 128 when all word and separator bytes are.
proof fn lemma_join_ascii(words: Seq<Seq<u8>>, seps: Seq<u8>)
    requires
        words.len() == seps.len(),
        forall|k: int, j: int|
            0 <= k < words.len() && 0 <= j < words[k].len() ==> #[trigger] words[k][j] < 128,
        forall|k: int| 0 <= k < seps.len() ==> #[trigger] seps[k] < 128,
    ensures
        forall|j: int| 0 <= j < spec_join(words, seps).len() ==> #[trigger] spec_join(
            words,
            seps,
        )[j] < 128,
    decreases words.len(),
{
    if words.len() > 0 {
        let head = words[0] + seq![seps[0]];
        let rest = spec_join(words.skip(1), seps.skip(1));
        lemma_join_ascii(words.skip(1), seps.skip(1));
        assert forall|j: int| 0 <= j < spec_join(words, seps).len() implies #[trigger] spec_join(
            words,
            seps,
        )[j] < 128 by {
            if j < head.len() {
                assert(spec_join(words, seps)[j] == head[j]);
                if j < words[0].len() {
                    assert(head[j] == words[0][j]);
                } else {
                    assert(head[j] == seps[0]);
                }
            } else {
                assert(spec_join(words, seps)[j] == rest[j - head.len()]);
            }
        };
    }
}

/// Every byte of the printed chart is below 128.
proof fn lemma_chart_text_ascii(c: Cytus1Chart)
    ensures
        forall|j: int| 0 <= j < spec_chart_text(c).len() ==> #[trigger] spec_chart_text(c)[j]
            < 128,
{
    lemma_chart_tokens(c);
    let words = chart_words(c);
    let seps = chart_seps(c);
    assert forall|k: int, j: int|
        0 <= k < words.len() && 0 <= j < words[k].len() implies #[trigger] words[k][j] < 128 by {
        lemma_chart_word_ascii(c, k);
    };
    assert forall|k: int| 0 <= k < seps.len() implies #[trigger] seps[k] < 128 by {
        if k < 8 {
            assert(seps[k] == chart_seps_header()[k]);
        } else if k < 8 + notes_seps(c.notes@).len() {
            lemma_notes_region_wf(c.notes@);
            assert(seps[k] == notes_seps(c.notes@)[k - 8]);
            assert(is_ws(seps[k]));
        } else {
            lemma_links_region_wf(links_view(c.links@));
            assert(seps[k] == links_seps(links_view(c.links@))[k - 8 - notes_seps(
                c.notes@,
            ).len()]);
            assert(is_ws(seps[k]));
        }
    };
    lemma_join_ascii(words, seps);
}

/// Every byte of each chart word is below 128.
proof fn lemma_chart_word_ascii(c: Cytus1Chart, k: int)
    requires
        0 <= k < chart_words(c).len(),
    ensures
        forall|j: int| 0 <= j < chart_words(c)[k].len() ==> #[trigger] chart_words(c)[k][j]
            < 128,
{
    let words = chart_words(c);
    if k < 8 {
        lemma_dec_word(c.version as nat);
        lemma_fixed_word(c.bpm_micros as nat);
        lemma_fixed_word(c.page_shift_micros as nat);
        lemma_fixed_word(c.page_size_micros as nat);
        assert(words[k] == chart_words_header(c)[k]);
    } else if k < 8 + notes_words(c.notes@).len() {
        lemma_notes_ascii(c.notes@);
        assert(words[k] == notes_words(c.notes@)[k - 8]);
    } else {
        lemma_links_ascii(links_view(c.links@));
        assert(words[k] == links_words(links_view(c.links@))[k - 8 - notes_words(
            c.notes@,
        ).len()]);
    }
}

/// Every byte of the note region words is below 128.
proof fn lemma_notes_ascii(s: Seq<Cytus1ChartNote>)
    ensures
        forall|k: int, j: int|
            0 <= k < notes_words(s).len() && 0 <= j < notes_words(s)[k].len()
                ==> #[trigger] notes_words(s)[k][j] < 128,
    decreases s.len(),
{
    if s.len() > 0 {
        lemma_notes_ascii(s.skip(1));
        lemma_dec_word(s[0].id as nat);
        lemma_fixed_word(s[0].time_micros as nat);
        lemma_fixed_word(s[0].x_micros as nat);
        lemma_fixed_word(s[0].hold_length_micros as nat);
        assert forall|k: int, j: int|
            0 <= k < notes_words(s).len() && 0 <= j < notes_words(s)[k].len() implies #[trigger] notes_words(
            s,
        )[k][j] < 128 by {
            if k < 5 {
                assert(notes_words(s)[k] == note_words(s[0])[k]);
            } else {
                assert(notes_words(s)[k] == notes_words(s.skip(1))[k - 5]);
            }
        };
    }
}

/// Every byte of the link region words is below 128.
proof fn lemma_links_ascii(s: Seq<Seq<u32>>)
    ensures
        forall|k: int, j: int|
            0 <= k < links_words(s).len() && 0 <= j < links_words(s)[k].len()
                ==> #[trigger] links_words(s)[k][j] < 128,
    decreases s.len(),
{
    if s.len() > 0 {
        lemma_links_ascii(s.skip(1));
        let l = s[0];
        assert forall|k: int, j: int|
            0 <= k < links_words(s).len() && 0 <= j < links_words(s)[k].len() implies #[trigger] links_words(
            s,
        )[k][j] < 128 by {
            if k < l.len() + 1 {
                assert(links_words(s)[k] == link_words(l)[k]);
                if k == 0 {
                    assert(link_words(l)[0] == kw_link());
                } else {
                    assert(link_words(l)[k] == dec_digits(l[k - 1] as nat));
                    lemma_dec_word(l[k - 1] as nat);
                }
            } else {
                assert(links_words(s)[k] == links_words(s.skip(1))[k - (l.len() + 1)]);
            }
        };
    }
}

/// A word the tokenizer will keep whole: non-empty, no whitespace.
pub open spec fn word_ok(w: Seq<u8>) -> bool {
    &&& w.len() >= 1
    &&& forall|j: int| 0 <= j < w.len() ==> !is_ws(#[trigger] w[j])
}

/// Decimal renderings are whitespace-free words starting with a digit.
proof fn lemma_dec_word(n: nat)
    ensures
        word_ok(dec_digits(n)),
        is_digit(dec_digits(n)[0]),
        forall|j: int| 0 <= j < dec_digits(n).len() ==> is_digit(#[trigger] dec_digits(n)[j]),
{
    lemma_dec_digits_wf(n);
}

/// Fixed-point renderings are whitespace-free words starting with a digit.
proof fn lemma_fixed_word(n: nat)
    ensures
        word_ok(fixed6(n)),
        is_digit(fixed6(n)[0]),
        forall|j: int| 0 <= j < fixed6(n).len() ==> is_fixed_byte(#[trigger] fixed6(n)[j]),
{
    lemma_dec_digits_wf(n / 1000000);
    lemma_pad_digits_wf(n % 1000000, 6);
    assert(fixed6(n)[0] == dec_digits(n / 1000000)[0]);
    assert forall|j: int| 0 <= j < fixed6(n).len() implies is_fixed_byte(
        #[trigger] fixed6(n)[j],
    ) by {
        let d = dec_digits(n / 1000000);
        if j < d.len() {
            assert(fixed6(n)[j] == d[j]);
        } else if j == d.len() {
            assert(fixed6(n)[j] == 46);
        } else {
            assert(fixed6(n)[j] == pad_digits(n % 1000000, 6)[j - d.len() - 1]);
        }
    };
}

/// The note region words and separators are well formed, equal in number,
/// and never look like a link keyword; words that are not the note keyword
/// open with a digit.
proof fn lemma_notes_region_wf(s: Seq<Cytus1ChartNote>)
    ensures
        notes_words(s).len() == notes_seps(s).len(),
        notes_words(s).len() == 5 * s.len(),
        forall|k: int| 0 <= k < notes_words(s).len() ==> word_ok(#[trigger] notes_words(s)[k]),
        forall|k: int| 0 <= k < notes_words(s).len() ==> #[trigger] notes_words(s)[k]
            != kw_link(),
        forall|k: int| 0 <= k < notes_seps(s).len() ==> is_ws(#[trigger] notes_seps(s)[k]),
    decreases s.len(),
{
    if s.len() > 0 {
        lemma_notes_region_wf(s.skip(1));
        lemma_dec_word(s[0].id as nat);
        lemma_fixed_word(s[0].time_micros as nat);
        lemma_fixed_word(s[0].x_micros as nat);
        lemma_fixed_word(s[0].hold_length_micros as nat);
        assert forall|k: int| 0 <= k < notes_words(s).len() implies word_ok(
            #[trigger] notes_words(s)[k],
        ) && notes_words(s)[k] != kw_link() by {
            if k < 5 {
                assert(notes_words(s)[k] == note_words(s[0])[k]);
                if k == 0 {
                    assert(kw_note()[0] == 78 && kw_link()[0] == 76);
                } else {
                    assert(is_digit(notes_words(s)[k][0]));
                    assert(!is_digit(kw_link()[0]));
                }
            } else {
                assert(notes_words(s)[k] == notes_words(s.skip(1))[k - 5]);
            }
        };
        assert forall|k: int| 0 <= k < notes_seps(s).len() implies is_ws(
            #[trigger] notes_seps(s)[k],
        ) by {
            if k < 5 {
                assert(notes_seps(s)[k] == note_seps()[k]);
            } else {
                assert(notes_seps(s)[k] == notes_seps(s.skip(1))[k - 5]);
            }
        };
    }
}

/// The link region words and separators are well formed and equal in number.
proof fn lemma_links_region_wf(s: Seq<Seq<u32>>)
    ensures
        links_words(s).len() == links_seps(s).len(),
        forall|k: int| 0 <= k < links_words(s).len() ==> word_ok(#[trigger] links_words(s)[k]),
        forall|k: int| 0 <= k < links_words(s).len() ==> !is_note_kw(
            #[trigger] links_words(s)[k],
        ),
        forall|k: int| 0 <= k < links_seps(s).len() ==> is_ws(#[trigger] links_seps(s)[k]),
    decreases s.len(),
{
    if s.len() > 0 {
        lemma_links_region_wf(s.skip(1));
        let l = s[0];
        assert(link_words(l).len() == l.len() + 1);
        assert(link_seps(l).len() == l.len() + 1);
        assert forall|k: int| 0 <= k < links_words(s).len() implies word_ok(
            #[trigger] links_words(s)[k],
        ) && !is_note_kw(links_words(s)[k]) by {
            if k < l.len() + 1 {
                assert(links_words(s)[k] == link_words(l)[k]);
                if k == 0 {
                    assert(link_words(l)[0] == kw_link());
                    assert(upper_byte(kw_link()[0]) == 76);
                } else {
                    assert(link_words(l)[k] == dec_digits(l[k - 1] as nat));
                    lemma_dec_word(l[k - 1] as nat);
                    assert(is_digit(links_words(s)[k][0]));
                    assert(upper_byte(links_words(s)[k][0]) == links_words(s)[k][0]);
                }
            } else {
                assert(links_words(s)[k] == links_words(s.skip(1))[k - (l.len() + 1)]);
            }
        };
        assert forall|k: int| 0 <= k < links_seps(s).len() implies is_ws(
            #[trigger] links_seps(s)[k],
        ) by {
            if k < l.len() + 1 {
                assert(links_seps(s)[k] == link_seps(l)[k]);
            } else {
                assert(links_seps(s)[k] == links_seps(s.skip(1))[k - (l.len() + 1)]);
            }
        };
    }
}

/// Tokenizing the printed chart gives back exactly its words.
proof fn lemma_chart_tokens(c: Cytus1Chart)
    ensures
        spec_tokenize(spec_chart_text(c)) == chart_words(c),
        chart_words(c).len() == chart_seps(c).len(),
{
    lemma_notes_region_wf(c.notes@);
    lemma_links_region_wf(links_view(c.links@));
    let words = chart_words(c);
    let seps = chart_seps(c);
    assert(words.len() == seps.len());
    assert forall|k: int| 0 <= k < words.len() implies #[trigger] words[k].len() >= 1 by {
        lemma_chart_word_ok(c, k);
    };
    assert forall|k: int, j: int|
        0 <= k < words.len() && 0 <= j < words[k].len() implies !is_ws(
        #[trigger] words[k][j],
    ) by {
        lemma_chart_word_ok(c, k);
    };
    assert forall|k: int| 0 <= k < seps.len() implies is_ws(#[trigger] seps[k]) by {
        if k < 8 {
            assert(seps[k] == chart_seps_header()[k] || seps[k] == 32 || seps[k] == 10);
        } else if k < 8 + notes_seps(c.notes@).len() {
            assert(seps[k] == notes_seps(c.notes@)[k - 8]);
        } else {
            assert(seps[k] == links_seps(links_view(c.links@))[k - 8 - notes_seps(
                c.notes@,
            ).len()]);
        }
    };
    lemma_tokenize_join(words, seps);
}

/// Each chart word is a whitespace-free, non-empty word.
proof fn lemma_chart_word_ok(c: Cytus1Chart, k: int)
    requires
        0 <= k < chart_words(c).len(),
    ensures
        word_ok(chart_words(c)[k]),
{
    lemma_notes_region_wf(c.notes@);
    lemma_links_region_wf(links_view(c.links@));
    let words = chart_words(c);
    if k < 8 {
        lemma_dec_word(c.version as nat);
        lemma_fixed_word(c.bpm_micros as nat);
        lemma_fixed_word(c.page_shift_micros as nat);
        lemma_fixed_word(c.page_size_micros as nat);
        assert(words[k] == chart_words_header(c)[k]);
    } else if k < 8 + notes_words(c.notes@).len() {
        assert(words[k] == notes_words(c.notes@)[k - 8]);
    } else {
        assert(words[k] == links_words(links_view(c.links@))[k - 8 - notes_words(
            c.notes@,
        ).len()]);
    }
}

/// The decimal rendering of `v` behaves as an id token.
proof fn lemma_dec_token_props(v: u64)
    ensures
        digit_prefix_len(dec_digits(v as nat)) == dec_digits(v as nat).len(),
        digit_prefix_len(dec_digits(v as nat)) >= 1,
        uint_prefix_val(dec_digits(v as nat)) == v,
        digits_val(dec_digits(v as nat)) == v,
{
    lemma_dec_digits_wf(v as nat);
    lemma_digit_prefix_len(dec_digits(v as nat), dec_digits(v as nat).len());
    assert(dec_digits(v as nat).take(dec_digits(v as nat).len() as int) =~= dec_digits(v as nat));
    lemma_digits_val_dec(v as nat);
}

/// The fixed-point rendering of `v` behaves as a numeric token.
proof fn lemma_fixed_token_props(v: u64)
    ensures
        fixed_prefix_len(fixed6(v as nat)) == fixed6(v as nat).len(),
        fixed_prefix_len(fixed6(v as nat)) >= 1,
        fixed_prefix(fixed6(v as nat)) == fixed6(v as nat),
        fixed_ok(fixed6(v as nat)),
        fixed_val(fixed_prefix(fixed6(v as nat))) == v,
{
    let w = fixed6(v as nat);
    lemma_fixed_word(v as nat);
    lemma_fixed_prefix_len(w, w.len());
    assert(w.take(w.len() as int) =~= w);
    lemma_fixed_val_fixed6(v as nat);
}

/// No note line starts anywhere a note keyword is absent.
proof fn lemma_notes_skip(toks: Seq<Seq<u8>>, i: int, p: int)
    requires
        0 <= i <= p <= toks.len(),
        forall|j: int| i <= j < p ==> !note_match(toks, j),
    ensures
        spec_notes_from(toks, i) == spec_notes_from(toks, p),
    decreases p - i,
{
    if i < p {
        lemma_notes_skip(toks, i + 1, p);
    }
}

/// No chain line starts anywhere a link keyword is absent.
proof fn lemma_links_skip(toks: Seq<Seq<u8>>, i: int, p: int)
    requires
        0 <= i <= p <= toks.len(),
        forall|j: int| i <= j < p ==> !link_match(toks, j),
    ensures
        spec_links_from(toks, i) == spec_links_from(toks, p),
    decreases p - i,
{
    if i < p {
        lemma_links_skip(toks, i + 1, p);
    }
}

/// Scanning a region of note lines followed by link lines reads back
/// exactly the notes.
#[verifier::rlimit(100)]
proof fn lemma_parse_notes_region(
    toks: Seq<Seq<u8>>,
    i: int,
    ns: Seq<Cytus1ChartNote>,
    ls: Seq<Seq<u32>>,
)
    requires
        0 <= i <= toks.len(),
        toks.skip(i) == notes_words(ns) + links_words(ls),
    ensures
        spec_notes_from(toks, i) == ns,
    decreases ns.len(),
{
    lemma_notes_region_wf(ns);
    lemma_links_region_wf(ls);
    if ns.len() == 0 {
        assert(notes_words(ns) =~= Seq::<Seq<u8>>::empty());
        assert(toks.skip(i) =~= links_words(ls));
        assert forall|j: int| i <= j < toks.len() implies !note_match(toks, j) by {
            assert(toks[j] == toks.skip(i)[j - i]);
            assert(!is_note_kw(links_words(ls)[j - i]));
        };
        lemma_notes_skip(toks, i, toks.len() as int);
        assert(spec_notes_from(toks, toks.len() as int) =~= Seq::<Cytus1ChartNote>::empty());
    } else {
        let n = ns[0];
        assert(notes_words(ns) == note_words(n) + notes_words(ns.skip(1)));
        assert(notes_words(ns).len() == 5 * ns.len());
        assert(toks.skip(i).len() == toks.len() - i);
        assert(toks.len() - i >= 5);
        assert forall|t: int| 0 <= t < 5 implies toks[i + t] == note_words(n)[t] by {
            assert(toks.skip(i)[t] == toks[t + i]);
            assert((notes_words(ns) + links_words(ls))[t] == notes_words(ns)[t]);
            assert(notes_words(ns)[t] == note_words(n)[t]);
        };
        lemma_dec_token_props(n.id as u64);
        lemma_fixed_token_props(n.time_micros);
        lemma_fixed_token_props(n.x_micros);
        lemma_fixed_token_props(n.hold_length_micros);
        assert(i + 5 <= toks.len()) by {
            assert(toks.skip(i).len() == toks.len() - i);
        };
        assert(note_match(toks, i)) by {
            assert(i + 4 < toks.len());
            assert(toks[i] == kw_note());
            assert(is_note_kw(kw_note()));
        };
        assert(spec_note_at(toks, i) == n);
        // the four numeric tokens cannot start a note line
        assert forall|j: int| i + 1 <= j < i + 5 implies !(#[trigger] note_match(toks, j)) by {
            let t = j - i;
            lemma_dec_word(n.id as nat);
            lemma_fixed_word(n.time_micros as nat);
            lemma_fixed_word(n.x_micros as nat);
            lemma_fixed_word(n.hold_length_micros as nat);
            assert(toks[j] == note_words(n)[t]);
            assert(is_digit(toks[j][0]));
            assert(upper_byte(toks[j][0]) == toks[j][0]);
            assert(!is_note_kw(toks[j]));
        };
        lemma_notes_skip(toks, i + 1, i + 5);
        assert(toks.skip(i + 5) =~= notes_words(ns.skip(1)) + links_words(ls)) by {
            assert(note_words(n).len() == 5);
            assert forall|t: int| 0 <= t < toks.len() - i - 5 implies toks.skip(i + 5)[t] == (
            notes_words(ns.skip(1)) + links_words(ls))[t] by {
                assert(toks.skip(i + 5)[t] == toks[t + (i + 5)]);
                assert(toks.skip(i)[t + 5] == toks[t + 5 + i]);
                assert(toks.skip(i)[t + 5] == (notes_words(ns) + links_words(ls))[t + 5]);
                assert((notes_words(ns) + links_words(ls))[t + 5] == (notes_words(ns.skip(1))
                    + links_words(ls))[t]) by {
                    if t + 5 < notes_words(ns).len() {
                        assert(notes_words(ns)[t + 5] == notes_words(ns.skip(1))[t]);
                    }
                };
            };
        };
        lemma_parse_notes_region(toks, i + 5, ns.skip(1), ls);
        assert(spec_notes_from(toks, i) == seq![n] + spec_notes_from(toks, i + 1));
        assert(seq![n] + ns.skip(1) =~= ns);
    }
}

/// A run of id tokens terminated by a non-id token or the end reads back
/// exactly the ids.
proof fn lemma_link_run_exact(toks: Seq<Seq<u8>>, j: int, ids: Seq<u32>)
    requires
        0 <= j,
        j + ids.len() <= toks.len(),
        forall|t: int| 0 <= t < ids.len() ==> toks[j + t] == dec_digits((#[trigger] ids[t]) as nat),
        j + ids.len() == toks.len() || !link_id_ok(toks[j + ids.len()]),
    ensures
        link_run(toks, j) == ids,
    decreases ids.len(),
{
    if ids.len() == 0 {
        assert(link_run(toks, j) =~= Seq::<u32>::empty());
    } else {
        assert(toks[j] == dec_digits(ids[0] as nat));
        lemma_dec_token_props(ids[0] as u64);
        assert(link_id_ok(toks[j]));
        assert forall|t: int| 0 <= t < ids.skip(1).len() implies toks[j + 1 + t] == dec_digits(
            (#[trigger] ids.skip(1)[t]) as nat,
        ) by {
            assert(ids.skip(1)[t] == ids[t + 1]);
        };
        lemma_link_run_exact(toks, j + 1, ids.skip(1));
        assert(link_run(toks, j) == seq![digits_val(toks[j]) as u32] + ids.skip(1));
        assert(seq![ids[0]] + ids.skip(1) =~= ids);
    }
}

/// Scanning a region of link lines reads back exactly the chains, provided
/// each chain has at least one id.
#[verifier::rlimit(100)]
proof fn lemma_parse_links_region(toks: Seq<Seq<u8>>, i: int, ls: Seq<Seq<u32>>)
    requires
        0 <= i <= toks.len(),
        toks.skip(i) == links_words(ls),
        forall|k: int| 0 <= k < ls.len() ==> (#[trigger] ls[k]).len() >= 1,
    ensures
        spec_links_from(toks, i) == ls,
    decreases ls.len(),
{
    lemma_links_region_wf(ls);
    if ls.len() == 0 {
        assert(links_words(ls) =~= Seq::<Seq<u8>>::empty());
        assert(toks.skip(i).len() == 0);
        assert(i == toks.len());
        assert(spec_links_from(toks, i) =~= Seq::<Seq<u32>>::empty());
    } else {
        let l = ls[0];
        assert(links_words(ls) == link_words(l) + links_words(ls.skip(1)));
        assert(link_words(l).len() == l.len() + 1);
        assert forall|t: int| 0 <= t < l.len() + 1 implies toks[i + t] == link_words(l)[t] by {
            assert(toks[i + t] == toks.skip(i)[t]);
            assert((links_words(ls))[t] == link_words(l)[t]);
        };
        assert(link_words(l)[0] == kw_link());
        assert(toks[i] == kw_link());
        assert(l.len() >= 1);
        assert forall|t: int| 0 <= t < l.len() implies toks[i + 1 + t] == dec_digits(
            (#[trigger] l[t]) as nat,
        ) by {
            assert(link_words(l)[t + 1] == dec_digits(l[t] as nat));
        };
        let after = i + 1 + l.len();
        assert(after <= toks.len()) by {
            assert(toks.skip(i).len() == toks.len() - i);
            assert(links_words(ls).len() == link_words(l).len() + links_words(ls.skip(1)).len());
        };
        assert(after == toks.len() || !link_id_ok(toks[after])) by {
            if after < toks.len() {
                assert(toks[after] == toks.skip(i)[after - i]);
                assert(toks.skip(i)[after - i] == links_words(ls.skip(1))[0]);
                assert(ls.skip(1).len() >= 1);
                assert(links_words(ls.skip(1))[0] == link_words(ls.skip(1)[0])[0]);
                assert(links_words(ls.skip(1))[0] == kw_link());
                assert(!is_digit(kw_link()[0]));
                assert(digit_prefix_len(kw_link()) == 0);
            }
        };
        lemma_link_run_exact(toks, i + 1, l);
        lemma_dec_token_props(l[0] as u64);
        assert(link_match(toks, i)) by {
            assert(toks[i + 1] == dec_digits(l[0] as nat));
        };
        // the id tokens themselves cannot start a link line
        assert forall|j: int| i + 1 <= j < after implies !(#[trigger] link_match(toks, j)) by {
            let t = j - i;
            assert(toks[j] == link_words(l)[t]);
            assert(toks[j] == dec_digits(l[t - 1] as nat));
            lemma_dec_word(l[t - 1] as nat);
            assert(is_digit(toks[j][0]));
            assert(!is_digit(kw_link()[0]));
            assert(toks[j] != kw_link());
        };
        lemma_links_skip(toks, i + 1, after);
        assert(toks.skip(after) =~= links_words(ls.skip(1))) by {
            assert forall|t: int| 0 <= t < toks.len() - after implies toks.skip(after)[t]
                == links_words(ls.skip(1))[t] by {
                assert(toks.skip(after)[t] == toks.skip(i)[t + l.len() + 1]);
                assert(toks.skip(i)[t + l.len() + 1] == links_words(ls)[t + l.len() + 1]);
            };
        };
        lemma_parse_links_region(toks, after, ls.skip(1));
        assert(spec_links_from(toks, i) == seq![link_run(toks, i + 1)] + spec_links_from(
            toks,
            i + 1,
        ));
        assert(seq![l] + ls.skip(1) =~= ls);
    }
}

/// The round trip: the text the writer produces for a chart parses back to
/// the same version, tempo, page shift, page size, notes and chains. The one
/// shape that cannot survive is a chain with no ids, whose line carries no
/// id token to find.
#[verifier::rlimit(100)]
pub proof fn lemma_round_trip(c: Cytus1Chart)
    requires
        forall|k: int| 0 <= k < c.links@.len() ==> (#[trigger] c.links@[k]).link@.len() >= 1,
    ensures
        ({
            let toks = spec_tokenize(spec_chart_text(c));
            &&& spec_header_ok(toks)
            &&& spec_version(toks) == c.version as nat
            &&& spec_fixed_hdr(toks, kw_bpm()) == c.bpm_micros as nat
            &&& spec_fixed_hdr(toks, kw_page_shift()) == c.page_shift_micros as nat
            &&& spec_fixed_hdr(toks, kw_page_size()) == c.page_size_micros as nat
            &&& spec_notes_from(toks, 0) == c.notes@
            &&& spec_links_from(toks, 0) == links_view(c.links@)
        }),
{
    lemma_chart_tokens(c);
    let toks = spec_tokenize(spec_chart_text(c));
    assert(toks == chart_words(c));
    lemma_notes_region_wf(c.notes@);
    lemma_links_region_wf(links_view(c.links@));
    lemma_dec_token_props(c.version as u64);
    lemma_fixed_token_props(c.bpm_micros);
    lemma_fixed_token_props(c.page_shift_micros);
    lemma_fixed_token_props(c.page_size_micros);
    let hw = chart_words_header(c);
    assert(toks.len() >= 8);
    assert forall|t: int| 0 <= t < 8 implies toks[t] == hw[t] by {
        assert(toks[t] == (hw + notes_words(c.notes@) + links_words(links_view(c.links@)))[t]);
    };
    // version is found at token 0
    assert(find_kw(toks, kw_version(), false, 0) == 0);
    assert(spec_version_ok(toks));
    assert(spec_version(toks) == c.version as nat);
    // bpm is found at token 2: earlier tokens are the version keyword and a
    // digit-initial number
    assert(toks[0] != kw_bpm()) by {
        assert(kw_version().len() == 7 && kw_bpm().len() == 3);
    };
    assert(toks[1] != kw_bpm()) by {
        lemma_dec_word(c.version as nat);
        if toks[1] == kw_bpm() {
            assert(is_digit(kw_bpm()[0]));
        }
    };
    assert(find_kw(toks, kw_bpm(), true, 0) == find_kw(toks, kw_bpm(), true, 1));
    assert(find_kw(toks, kw_bpm(), true, 1) == find_kw(toks, kw_bpm(), true, 2));
    assert(find_kw(toks, kw_bpm(), true, 2) == 2);
    assert(spec_fixed_hdr_ok(toks, kw_bpm()));
    assert(spec_fixed_hdr(toks, kw_bpm()) == c.bpm_micros as nat);
    // page shift is found at token 4
    assert(toks[0] != kw_page_shift()) by {
        assert(kw_version().len() == 7 && kw_page_shift().len() == 10);
    };
    assert(toks[1] != kw_page_shift()) by {
        lemma_dec_word(c.version as nat);
        if toks[1] == kw_page_shift() {
            assert(is_digit(kw_page_shift()[0]));
        }
    };
    assert(toks[2] != kw_page_shift()) by {
        assert(kw_bpm().len() == 3 && kw_page_shift().len() == 10);
    };
    assert(toks[3] != kw_page_shift()) by {
        lemma_fixed_word(c.bpm_micros as nat);
        if toks[3] == kw_page_shift() {
            assert(is_digit(kw_page_shift()[0]));
        }
    };
    assert(find_kw(toks, kw_page_shift(), true, 0) == find_kw(toks, kw_page_shift(), true, 1));
    assert(find_kw(toks, kw_page_shift(), true, 1) == find_kw(toks, kw_page_shift(), true, 2));
    assert(find_kw(toks, kw_page_shift(), true, 2) == find_kw(toks, kw_page_shift(), true, 3));
    assert(find_kw(toks, kw_page_shift(), true, 3) == find_kw(toks, kw_page_shift(), true, 4));
    assert(find_kw(toks, kw_page_shift(), true, 4) == 4);
    assert(spec_fixed_hdr_ok(toks, kw_page_shift()));
    assert(spec_fixed_hdr(toks, kw_page_shift()) == c.page_shift_micros as nat);
    // page size is found at token 6
    assert(toks[0] != kw_page_size()) by {
        assert(kw_version().len() == 7 && kw_page_size().len() == 9);
    };
    assert(toks[1] != kw_page_size()) by {
        lemma_dec_word(c.version as nat);
        if toks[1] == kw_page_size() {
            assert(is_digit(kw_page_size()[0]));
        }
    };
    assert(toks[2] != kw_page_size()) by {
        assert(kw_bpm().len() == 3 && kw_page_size().len() == 9);
    };
    assert(toks[3] != kw_page_size()) by {
        lemma_fixed_word(c.bpm_micros as nat);
        if toks[3] == kw_page_size() {
            assert(is_digit(kw_page_size()[0]));
        }
    };
    assert(toks[4] != kw_page_size()) by {
        assert(kw_page_shift().len() == 10 && kw_page_size().len() == 9);
    };
    assert(toks[5] != kw_page_size()) by {
        lemma_fixed_word(c.page_shift_micros as nat);
        if toks[5] == kw_page_size() {
            assert(is_digit(kw_page_size()[0]));
        }
    };
    assert(find_kw(toks, kw_page_size(), true, 0) == find_kw(toks, kw_page_size(), true, 1));
    assert(find_kw(toks, kw_page_size(), true, 1) == find_kw(toks, kw_page_size(), true, 2));
    assert(find_kw(toks, kw_page_size(), true, 2) == find_kw(toks, kw_page_size(), true, 3));
    assert(find_kw(toks, kw_page_size(), true, 3) == find_kw(toks, kw_page_size(), true, 4));
    assert(find_kw(toks, kw_page_size(), true, 4) == find_kw(toks, kw_page_size(), true, 5));
    assert(find_kw(toks, kw_page_size(), true, 5) == find_kw(toks, kw_page_size(), true, 6));
    assert(find_kw(toks, kw_page_size(), true, 6) == 6);
    assert(spec_fixed_hdr_ok(toks, kw_page_size()));
    assert(spec_fixed_hdr(toks, kw_page_size()) == c.page_size_micros as nat);
    // the header tokens hold no note line and no link line
    assert forall|j: int| 0 <= j < 8 implies !note_match(toks, j) && !link_match(toks, j) by {
        lemma_dec_word(c.version as nat);
        lemma_fixed_word(c.bpm_micros as nat);
        lemma_fixed_word(c.page_shift_micros as nat);
        lemma_fixed_word(c.page_size_micros as nat);
        if j == 0 {
            assert(upper_byte(toks[j][0]) == 86);
            assert(kw_version().len() != kw_link().len());
        } else if j == 2 {
            assert(upper_byte(toks[j][0]) == 66);
            assert(kw_bpm().len() != kw_link().len());
        } else if j == 4 {
            assert(upper_byte(toks[j][0]) == 80);
            assert(kw_page_shift().len() != kw_link().len());
        } else if j == 6 {
            assert(upper_byte(toks[j][0]) == 80);
            assert(kw_page_size().len() != kw_link().len());
        } else {
            assert(is_digit(toks[j][0]));
            assert(upper_byte(toks[j][0]) == toks[j][0]);
            assert(!is_digit(kw_link()[0]));
        }
    };
    // notes
    lemma_notes_skip(toks, 0, 8);
    assert(toks.skip(8) =~= notes_words(c.notes@) + links_words(links_view(c.links@)));
    lemma_parse_notes_region(toks, 8, c.notes@, links_view(c.links@));
    // links: also no link line starts inside the note region
    let p = 8 + notes_words(c.notes@).len() as int;
    assert forall|j: int| 8 <= j < p implies !link_match(toks, j) by {
        assert(toks[j] == notes_words(c.notes@)[j - 8]);
    };
    lemma_links_skip(toks, 0, 8);
    lemma_links_skip(toks, 8, p);
    assert(toks.skip(p) =~= links_words(links_view(c.links@))) by {
        assert forall|t: int| 0 <= t < toks.len() - p implies toks.skip(p)[t] == links_words(
            links_view(c.links@),
        )[t] by {
            assert(toks.skip(p)[t] == toks.skip(8)[t + notes_words(c.notes@).len()]);
        };
    };
    assert(forall|k: int|
        0 <= k < links_view(c.links@).len() ==> (#[trigger] links_view(c.links@)[k]).len() >= 1);
    lemma_parse_links_region(toks, p, links_view(c.links@));
}

} // verus!
