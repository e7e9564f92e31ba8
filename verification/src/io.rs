//! The layout of the two text formats: a spectrum in three columns, and a
//! simulation state with one value per line. Integers are read here; a value
//! that stands for a real number is handed out as the text that writes it.

use crate::text::{
    characters, parse_i32, parse_usize, split_lines, split_words, text_lines, views, words_of,
    written_i32, written_usize,
};
use vstd::prelude::*;

verus! {

/// What a file holds, by the extension of its name.
#[derive(Clone, Copy, Debug, PartialEq, Eq)]
pub enum FileKind {
    /// `txt`: a spectrum in three columns.
    Spectrum,
    /// `esr`: a spectrum in the format of the spectrometer.
    Esr,
    /// `json`: a spectrum as JSON.
    Json,
    /// `esrafel`: a saved state.
    State,
    /// `sim`: a simulation state with one value per line.
    Simulation,
    /// Anything else.
    Unknown,
}

/// The kind of file that an extension names. Upper and lower case differ.
pub open spec fn kind_of(extension: Seq<char>) -> FileKind {
    if extension == seq!['t', 'x', 't'] {
        FileKind::Spectrum
    } else if extension == seq!['e', 's', 'r'] {
        FileKind::Esr
    } else if extension == seq!['j', 's', 'o', 'n'] {
        FileKind::Json
    } else if extension == seq!['e', 's', 'r', 'a', 'f', 'e', 'l'] {
        FileKind::State
    } else if extension == seq!['s', 'i', 'm'] {
        FileKind::Simulation
    } else {
        FileKind::Unknown
    }
}

/// Whether a text is exactly these characters.
fn is_text(text: &Vec<char>, expected: &[char]) -> (b: bool)
    ensures
        b == (text@ == expected@),
{
    if text.len() != expected.len() {
        return false;
    }
    let mut i: usize = 0;
    while i < text.len()
        invariant
            i <= text.len(),
            text.len() == expected.len(),
            text@.take(i as int) == expected@.take(i as int),
        decreases text.len() - i,
    {
        if text[i] != expected[i] {
            return false;
        }
        proof {
            assert(text@.take(i + 1) =~= text@.take(i as int).push(text@[i as int]));
            assert(expected@.take(i + 1) =~= expected@.take(i as int).push(expected@[i as int]));
        }
        i += 1;
    }
    proof {
        assert(text@.take(i as int) =~= text@);
        assert(expected@.take(i as int) =~= expected@);
    }
    true
}

/// The kind of file that an extension names.
pub fn file_kind(extension: &str) -> (kind: FileKind)
    ensures
        kind == kind_of(extension@),
{
    let name = characters(extension);
    if is_text(&name, &['t', 'x', 't']) {
        FileKind::Spectrum
    } else if is_text(&name, &['e', 's', 'r']) {
        FileKind::Esr
    } else if is_text(&name, &['j', 's', 'o', 'n']) {
        FileKind::Json
    } else if is_text(&name, &['e', 's', 'r', 'a', 'f', 'e', 'l']) {
        FileKind::State
    } else if is_text(&name, &['s', 'i', 'm']) {
        FileKind::Simulation
    } else {
        FileKind::Unknown
    }
}

/// One point of a recorded spectrum.
#[derive(Debug, PartialEq, Eq)]
pub struct SpectrumRow {
    /// Index of the point.
    pub index: usize,
    /// The text that writes the field.
    pub field: Vec<char>,
    /// The text that writes the intensity.
    pub intensity: Vec<char>,
}

/// What a `SpectrumRow` holds.
pub struct SpectrumRowView {
    pub index: usize,
    pub field: Seq<char>,
    pub intensity: Seq<char>,
}

impl View for SpectrumRow {
    type V = SpectrumRowView;

    open spec fn view(&self) -> SpectrumRowView {
        SpectrumRowView { index: self.index, field: self.field@, intensity: self.intensity@ }
    }
}

/// The view of each row of a list.
pub open spec fn row_views(rows: Seq<SpectrumRow>) -> Seq<SpectrumRowView> {
    Seq::new(rows.len(), |i: int| rows[i]@)
}

/// The rows of a spectrum in these lines: each line of exactly three words
/// is a row of index, field and intensity, and every other line is passed
/// over. There are no rows at all where the index of one of them is no size.
pub open spec fn spectrum_rows(lines: Seq<Seq<char>>) -> Option<Seq<SpectrumRowView>>
    decreases lines.len(),
{
    if lines.len() == 0 {
        Some(Seq::empty())
    } else {
        let words = words_of(lines.last());
        match spectrum_rows(lines.drop_last()) {
            None => None,
            Some(rows) => if words.len() != 3 {
                Some(rows)
            } else {
                match written_usize(words[0]) {
                    None => None,
                    Some(index) => Some(
                        rows.push(
                            SpectrumRowView { index, field: words[1], intensity: words[2] },
                        ),
                    ),
                }
            },
        }
    }
}

/// The rows of a spectrum written in three columns, or `None` where a row
/// has an index that is no size.
pub fn ascii_import(content: &str) -> (r: Option<Vec<SpectrumRow>>)
    ensures
        match r {
            Some(rows) => spectrum_rows(text_lines(content@)) == Some(row_views(rows@)),
            None => spectrum_rows(text_lines(content@)) is None,
        },
{
    let chars = characters(content);
    let lines = split_lines(&chars);
    let mut rows: Vec<SpectrumRow> = Vec::new();
    let mut l: usize = 0;
    proof {
        assert(views(lines@).take(0) =~= Seq::<Seq<char>>::empty());
        assert(row_views(rows@) =~= Seq::<SpectrumRowView>::empty());
    }
    while l < lines.len()
        invariant
            l <= lines.len(),
            views(lines@) == text_lines(content@),
            spectrum_rows(views(lines@).take(l as int)) == Some(row_views(rows@)),
        decreases lines.len() - l,
    {
        let mut words = split_words(&lines[l]);
        let ghost before = rows@;
        proof {
            assert(views(lines@).take(l + 1).drop_last() =~= views(lines@).take(l as int));
            assert(views(lines@).take(l + 1).last() == lines@[l as int]@);
        }
        if words.len() == 3 {
            let index = match parse_usize(&words[0]) {
                Some(index) => index,
                None => {
                    proof {
                        lemma_no_rows_after_none(views(lines@), l + 1);
                    }
                    return None;
                },
            };
            let ghost written = views(words@);
            let intensity = words.pop().unwrap();
            let field = words.pop().unwrap();
            rows.push(SpectrumRow { index, field, intensity });
            proof {
                let row = rows@[before.len() as int];
                assert(written[1] == row.field@);
                assert(written[2] == row.intensity@);
                assert(row_views(rows@) =~= row_views(before).push(row@));
            }
        }
        l += 1;
    }
    proof {
        assert(views(lines@).take(l as int) =~= views(lines@));
    }
    Some(rows)
}

/// The intensity of each row, as the text that writes it.
pub open spec fn intensities(rows: Seq<SpectrumRowView>) -> Seq<Seq<char>> {
    Seq::new(rows.len(), |i: int| rows[i].intensity)
}

/// The intensities of a spectrum written in three columns, each as the text
/// that writes it, or `None` where a row has an index that is no size.
pub fn get_from_ascii(content: &str) -> (r: Option<Vec<Vec<char>>>)
    ensures
        match r {
            Some(column) => spectrum_rows(text_lines(content@)) is Some && views(column@)
                == intensities(spectrum_rows(text_lines(content@)).unwrap()),
            None => spectrum_rows(text_lines(content@)) is None,
        },
{
    let mut rows = match ascii_import(content) {
        Some(rows) => rows,
        None => {
            return None;
        },
    };
    let ghost read = row_views(rows@);
    let mut column: Vec<Vec<char>> = Vec::new();
    let mut k: usize = 0;
    while k < rows.len()
        invariant
            k <= rows.len(),
            rows.len() == read.len(),
            column.len() == k,
            forall|i: int| k <= i < rows.len() ==> (#[trigger] rows[i])@ == read[i],
            forall|i: int| 0 <= i < k ==> (#[trigger] column[i])@ == read[i].intensity,
        decreases rows.len() - k,
    {
        let mut intensity: Vec<char> = Vec::new();
        std::mem::swap(&mut intensity, &mut rows[k].intensity);
        column.push(intensity);
        k += 1;
    }
    proof {
        assert(views(column@) =~= intensities(read));
    }
    Some(column)
}

/// Once the rows of the first lines are refused, so are the rows of all.
proof fn lemma_no_rows_after_none(lines: Seq<Seq<char>>, read: int)
    requires
        0 <= read <= lines.len(),
        spectrum_rows(lines.take(read)) is None,
    ensures
        spectrum_rows(lines) is None,
    decreases lines.len() - read,
{
    if read < lines.len() {
        assert(lines.take(read + 1).drop_last() =~= lines.take(read));
        lemma_no_rows_after_none(lines, read + 1);
    } else {
        assert(lines.take(read) =~= lines);
    }
}

/// One group of equivalent nuclei as a simulation state writes it.
#[derive(Debug, PartialEq, Eq)]
pub struct NucleusText {
    /// Number of equivalent nuclei.
    pub eqs: i32,
    /// The text that writes the nuclear spin.
    pub spin: Vec<char>,
    /// The text that writes the hyperfine constant.
    pub hpf: Vec<char>,
}

/// One radical as a simulation state writes it.
#[derive(Debug, PartialEq, Eq)]
pub struct RadicalText {
    /// The text that writes the relative amount.
    pub amount: Vec<char>,
    /// The text that writes the offset of the line center.
    pub dh1: Vec<char>,
    /// The text that writes the line width.
    pub lwa: Vec<char>,
    /// The text that writes the Lorentzian share.
    pub lrtz: Vec<char>,
    /// The groups of nuclei.
    pub nucs: Vec<NucleusText>,
}

/// A simulation state as its file writes it.
#[derive(Debug, PartialEq, Eq)]
pub struct SimulationText {
    /// Number of points.
    pub points: i32,
    /// Sweep width.
    pub sweep: i32,
    /// The radicals.
    pub rads: Vec<RadicalText>,
}

/// What a `NucleusText` holds.
pub struct NucleusView {
    pub eqs: i32,
    pub spin: Seq<char>,
    pub hpf: Seq<char>,
}

/// What a `RadicalText` holds.
pub struct RadicalView {
    pub amount: Seq<char>,
    pub dh1: Seq<char>,
    pub lwa: Seq<char>,
    pub lrtz: Seq<char>,
    pub nucs: Seq<NucleusView>,
}

/// What a `SimulationText` holds.
pub struct SimulationView {
    pub points: i32,
    pub sweep: i32,
    pub rads: Seq<RadicalView>,
}

impl View for NucleusText {
    type V = NucleusView;

    open spec fn view(&self) -> NucleusView {
        NucleusView { eqs: self.eqs, spin: self.spin@, hpf: self.hpf@ }
    }
}

/// The view of each group of a list.
pub open spec fn nucleus_views(nucs: Seq<NucleusText>) -> Seq<NucleusView> {
    Seq::new(nucs.len(), |i: int| nucs[i]@)
}

impl View for RadicalText {
    type V = RadicalView;

    open spec fn view(&self) -> RadicalView {
        RadicalView {
            amount: self.amount@,
            dh1: self.dh1@,
            lwa: self.lwa@,
            lrtz: self.lrtz@,
            nucs: nucleus_views(self.nucs@),
        }
    }
}

/// The view of each radical of a list.
pub open spec fn radical_views(rads: Seq<RadicalText>) -> Seq<RadicalView> {
    Seq::new(rads.len(), |i: int| rads[i]@)
}

impl View for SimulationText {
    type V = SimulationView;

    open spec fn view(&self) -> SimulationView {
        SimulationView { points: self.points, sweep: self.sweep, rads: radical_views(self.rads@) }
    }
}

/// The value that line `at` holds: its only word. A line that is missing,
/// blank or of several words holds no value.
pub open spec fn value_at(lines: Seq<Seq<char>>, at: int) -> Option<Seq<char>> {
    if 0 <= at < lines.len() && words_of(lines[at]).len() == 1 {
        Some(words_of(lines[at])[0])
    } else {
        None
    }
}

/// The 32-bit integer that line `at` holds.
pub open spec fn integer_at(lines: Seq<Seq<char>>, at: int) -> Option<i32> {
    match value_at(lines, at) {
        Some(word) => written_i32(word),
        None => None,
    }
}

/// `count` groups of nuclei from line `at` on, and the line after them. A
/// group takes three lines: number of nuclei, spin, hyperfine constant. A
/// count below 1 asks for no group.
pub open spec fn nuclei_at(lines: Seq<Seq<char>>, at: int, count: int) -> Option<
    (Seq<NucleusView>, int),
>
    decreases count,
{
    if count <= 0 {
        Some((Seq::empty(), at))
    } else {
        match (integer_at(lines, at), value_at(lines, at + 1), value_at(lines, at + 2)) {
            (Some(eqs), Some(spin), Some(hpf)) => match nuclei_at(lines, at + 3, count - 1) {
                Some((rest, end)) => Some((seq![NucleusView { eqs, spin, hpf }] + rest, end)),
                None => None,
            },
            _ => None,
        }
    }
}

/// `count` radicals from line `at` on, and the line after them. A radical
/// takes four lines for amount, center, line width and Lorentzian share, one
/// line for the number of its groups, and then its groups. A count below 1
/// asks for no radical.
pub open spec fn radicals_at(lines: Seq<Seq<char>>, at: int, count: int) -> Option<
    (Seq<RadicalView>, int),
>
    decreases count,
{
    if count <= 0 {
        Some((Seq::empty(), at))
    } else {
        match (
            value_at(lines, at),
            value_at(lines, at + 1),
            value_at(lines, at + 2),
            value_at(lines, at + 3),
            integer_at(lines, at + 4),
        ) {
            (Some(amount), Some(dh1), Some(lwa), Some(lrtz), Some(groups)) => match nuclei_at(
                lines,
                at + 5,
                groups as int,
            ) {
                Some((nucs, next)) => match radicals_at(lines, next, count - 1) {
                    Some((rest, end)) => Some(
                        (seq![RadicalView { amount, dh1, lwa, lrtz, nucs }] + rest, end),
                    ),
                    None => None,
                },
                None => None,
            },
            _ => None,
        }
    }
}

/// The simulation state in these lines: the number of radicals, the points
/// and the sweep, one per line, then the radicals. Lines after the last
/// radical are passed over.
pub open spec fn simulation_in(lines: Seq<Seq<char>>) -> Option<SimulationView> {
    match (integer_at(lines, 0), integer_at(lines, 1), integer_at(lines, 2)) {
        (Some(count), Some(points), Some(sweep)) => match radicals_at(lines, 3, count as int) {
            Some((rads, end)) => Some(SimulationView { points, sweep, rads }),
            None => None,
        },
        _ => None,
    }
}

/// The value that line `at` holds.
fn read_value(lines: &Vec<Vec<char>>, at: usize) -> (r: Option<Vec<char>>)
    ensures
        match r {
            Some(word) => value_at(views(lines@), at as int) == Some(word@),
            None => value_at(views(lines@), at as int) is None,
        },
        r is Some ==> at < lines.len(),
{
    if at >= lines.len() {
        return None;
    }
    let mut words = split_words(&lines[at]);
    if words.len() != 1 {
        return None;
    }
    words.pop()
}

/// The 32-bit integer that line `at` holds.
fn read_integer(lines: &Vec<Vec<char>>, at: usize) -> (r: Option<i32>)
    ensures
        r == integer_at(views(lines@), at as int),
        r is Some ==> at < lines.len(),
{
    match read_value(lines, at) {
        Some(word) => parse_i32(&word),
        None => None,
    }
}

/// `count` groups of nuclei from line `at` on, and the line after them.
fn read_nuclei(lines: &Vec<Vec<char>>, at: usize, count: i32) -> (r: Option<
    (Vec<NucleusText>, usize),
>)
    ensures
        match r {
            Some((nucs, end)) => nuclei_at(views(lines@), at as int, count as int) == Some(
                (nucleus_views(nucs@), end as int),
            ),
            None => nuclei_at(views(lines@), at as int, count as int) is None,
        },
{
    let ghost text = views(lines@);
    let mut nucs: Vec<NucleusText> = Vec::new();
    let mut line: usize = at;
    let mut done: i32 = 0;
    proof {
        assert(nucleus_views(nucs@) =~= Seq::<NucleusView>::empty());
        lemma_nuclei_joined(text, at as int, count as int, Seq::empty());
    }
    while done < count
        invariant
            0 <= done,
            done <= count || count < 0,
            text == views(lines@),
            nuclei_at(text, at as int, count as int) == joined_nuclei(
                nucleus_views(nucs@),
                nuclei_at(text, line as int, count - done),
            ),
        decreases count - done,
    {
        let ghost before = nucs@;
        let eqs = match read_integer(lines, line) {
            Some(eqs) => eqs,
            None => {
                return None;
            },
        };
        let spin = match read_value(lines, line + 1) {
            Some(spin) => spin,
            None => {
                return None;
            },
        };
        let hpf = match read_value(lines, line + 2) {
            Some(hpf) => hpf,
            None => {
                return None;
            },
        };
        nucs.push(NucleusText { eqs, spin, hpf });
        proof {
            let read = nucs@[before.len() as int]@;
            assert(nucleus_views(nucs@) =~= nucleus_views(before).push(read));
            match nuclei_at(text, line + 3, count - done - 1) {
                Some((rest, end)) => {
                    assert(nucleus_views(before) + (seq![read] + rest) =~= nucleus_views(
                        before,
                    ).push(read) + rest);
                },
                None => {},
            }
        }
        line = line + 3;
        done = done + 1;
    }
    Some((nucs, line))
}

/// The groups already read, followed by what is read from there on.
spec fn joined_nuclei(
    read: Seq<NucleusView>,
    rest: Option<(Seq<NucleusView>, int)>,
) -> Option<(Seq<NucleusView>, int)> {
    match rest {
        Some((more, end)) => Some((read + more, end)),
        None => None,
    }
}

proof fn lemma_nuclei_joined(
    lines: Seq<Seq<char>>,
    at: int,
    count: int,
    read: Seq<NucleusView>,
)
    ensures
        read.len() == 0 ==> joined_nuclei(read, nuclei_at(lines, at, count)) == nuclei_at(
            lines,
            at,
            count,
        ),
{
    match nuclei_at(lines, at, count) {
        Some((more, end)) => {
            if read.len() == 0 {
                assert(read + more =~= more);
            }
        },
        None => {},
    }
}

/// The radicals already read, followed by what is read from there on.
spec fn joined_radicals(
    read: Seq<RadicalView>,
    rest: Option<(Seq<RadicalView>, int)>,
) -> Option<(Seq<RadicalView>, int)> {
    match rest {
        Some((more, end)) => Some((read + more, end)),
        None => None,
    }
}

/// `count` radicals from line `at` on, and the line after them.
fn read_radicals(lines: &Vec<Vec<char>>, at: usize, count: i32) -> (r: Option<
    (Vec<RadicalText>, usize),
>)
    ensures
        match r {
            Some((rads, end)) => radicals_at(views(lines@), at as int, count as int) == Some(
                (radical_views(rads@), end as int),
            ),
            None => radicals_at(views(lines@), at as int, count as int) is None,
        },
{
    let ghost text = views(lines@);
    let mut rads: Vec<RadicalText> = Vec::new();
    let mut line: usize = at;
    let mut done: i32 = 0;
    proof {
        assert(radical_views(rads@) =~= Seq::<RadicalView>::empty());
        match radicals_at(text, at as int, count as int) {
            Some((more, end)) => {
                assert(Seq::<RadicalView>::empty() + more =~= more);
            },
            None => {},
        }
    }
    while done < count
        invariant
            0 <= done,
            done <= count || count < 0,
            text == views(lines@),
            radicals_at(text, at as int, count as int) == joined_radicals(
                radical_views(rads@),
                radicals_at(text, line as int, count - done),
            ),
        decreases count - done,
    {
        let ghost before = rads@;
        let amount = match read_value(lines, line) {
            Some(amount) => amount,
            None => {
                return None;
            },
        };
        let dh1 = match read_value(lines, line + 1) {
            Some(dh1) => dh1,
            None => {
                return None;
            },
        };
        let lwa = match read_value(lines, line + 2) {
            Some(lwa) => lwa,
            None => {
                return None;
            },
        };
        let lrtz = match read_value(lines, line + 3) {
            Some(lrtz) => lrtz,
            None => {
                return None;
            },
        };
        let groups = match read_integer(lines, line + 4) {
            Some(groups) => groups,
            None => {
                return None;
            },
        };
        let (nucs, next) = match read_nuclei(lines, line + 5, groups) {
            Some(read) => read,
            None => {
                return None;
            },
        };
        rads.push(RadicalText { amount, dh1, lwa, lrtz, nucs });
        proof {
            let read = rads@[before.len() as int]@;
            assert(radical_views(rads@) =~= radical_views(before).push(read));
            match radicals_at(text, next as int, count - done - 1) {
                Some((rest, end)) => {
                    assert(radical_views(before) + (seq![read] + rest) =~= radical_views(
                        before,
                    ).push(read) + rest);
                },
                None => {},
            }
        }
        line = next;
        done = done + 1;
    }
    Some((rads, line))
}

/// The simulation state that a text writes, one value per line, or `None`
/// where a line that is needed is missing, blank or of several words, or
/// where a line that holds an integer writes none.
pub fn get_from_sim(data: &str) -> (r: Option<SimulationText>)
    ensures
        match r {
            Some(state) => simulation_in(text_lines(data@)) == Some(state@),
            None => simulation_in(text_lines(data@)) is None,
        },
{
    let chars = characters(data);
    let lines = split_lines(&chars);
    let count = match read_integer(&lines, 0) {
        Some(count) => count,
        None => {
            return None;
        },
    };
    let points = match read_integer(&lines, 1) {
        Some(points) => points,
        None => {
            return None;
        },
    };
    let sweep = match read_integer(&lines, 2) {
        Some(sweep) => sweep,
        None => {
            return None;
        },
    };
    match read_radicals(&lines, 3, count) {
        Some((rads, _)) => Some(SimulationText { points, sweep, rads }),
        None => None,
    }
}

} // verus!
