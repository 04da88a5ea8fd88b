//! The sidecar rewriter: takes a rotation off the `Degree` value in the
//! `[Rotation]` section of a parameter file and leaves every other line as it
//! was.
//!
//! The rotation section begins at the first line that holds nothing but
//! `[Rotation]` and blanks around it. The line that is rewritten is the first
//! after it that begins with `Degree=`. Reading the file and writing the
//! result are the caller's part: the caller says how the reading went and is
//! told what to write where.

use vstd::prelude::*;
use vstd::slice::slice_subrange;
use vstd::string::*;
use crate::decimal::{decimal_text, decimal_value, format_decimal, law_text_reads_back, parse_decimal};
use crate::fixed::{saturated, Fixed};
use crate::text::{
    append,
    first_where,
    has_prefix,
    is_plain,
    join_lines,
    joined,
    law_plain_text_joins_back,
    lemma_first_where,
    lemma_first_where_found,
    lines_of,
    range_equals,
    split_lines,
    starts_with,
    trim,
    trimmed,
    views,
};

verus! {

/// How many bytes the key and its separator take.
pub const KEY_LEN: usize = 7;

/// Why a sidecar file could not be rewritten.
#[derive(Clone, Copy, Debug, PartialEq, Eq, Structural)]
pub enum SidecarError {
    /// The file does not exist, or may not be looked at.
    NotFound,
    /// The file exists and could not be read as text.
    ReadError,
    /// The result could not be written.
    WriteError,
    /// The value of `Degree` is no numeral, or none that a `Fixed` holds.
    MalformedValue,
}

/// How the reading of a sidecar file went.
#[derive(Debug)]
pub enum SourceRead {
    /// The file does not exist, or may not be looked at.
    Missing,
    /// The file exists and could not be read as text.
    Unreadable,
    /// What the file holds.
    Contents(Vec<u8>),
}

/// The bytes of `[Rotation]`, the line that opens the rotation section.
pub open spec fn section_marker() -> Seq<u8> {
    seq![91u8, 82u8, 111u8, 116u8, 97u8, 116u8, 105u8, 111u8, 110u8, 93u8]
}

/// The bytes of `Degree=`, which begin the line that holds the rotation.
pub open spec fn degree_key() -> Seq<u8> {
    seq![68u8, 101u8, 103u8, 114u8, 101u8, 101u8, 61u8]
}

/// What is added to the name of a sidecar file for the name of the output.
pub open spec fn output_suffix() -> Seq<char> {
    seq!['.', 'r', 'o', 't']
}

/// Whether `line` opens the rotation section.
pub open spec fn is_marker(line: Seq<u8>) -> bool {
    trimmed(line) == section_marker()
}

/// Whether `line` begins with the key of the rotation.
pub open spec fn has_key(line: Seq<u8>) -> bool {
    has_prefix(line, degree_key())
}

/// The test for a line that opens the rotation section.
pub open spec fn marker_test() -> spec_fn(Seq<u8>) -> bool {
    |line: Seq<u8>| is_marker(line)
}

/// The test for a line that begins with the key of the rotation.
pub open spec fn key_test() -> spec_fn(Seq<u8>) -> bool {
    |line: Seq<u8>| has_key(line)
}

/// The index of the line to rewrite: the first that begins with the key
/// among those after the first that opens the rotation section.
pub open spec fn degree_line(lines: Seq<Seq<u8>>) -> Option<int> {
    let m = first_where(lines, marker_test());
    if 0 <= m < lines.len() {
        let k = m + 1 + first_where(lines.skip(m + 1), key_test());
        if k < lines.len() {
            Some(k)
        } else {
            None
        }
    } else {
        None
    }
}

/// The lines after `delta` is taken off the recorded rotation. The line to
/// rewrite gets the key and the numeral of the new value; the others stay.
/// Lines without a line to rewrite stay as they are.
pub open spec fn rewritten(lines: Seq<Seq<u8>>, delta: int) -> Result<
    Seq<Seq<u8>>,
    SidecarError,
> {
    match degree_line(lines) {
        None => Ok(lines),
        Some(i) => match decimal_value(lines[i].skip(KEY_LEN as int)) {
            None => Err(SidecarError::MalformedValue),
            Some(recorded) => Ok(
                lines.update(i, degree_key() + decimal_text(saturated(recorded - delta))),
            ),
        },
    }
}

/// The text after `delta` is taken off the rotation that it records.
pub open spec fn rewritten_text(text: Seq<u8>, delta: int) -> Result<Seq<u8>, SidecarError> {
    match rewritten(lines_of(text), delta) {
        Ok(lines) => Ok(joined(lines)),
        Err(e) => Err(e),
    }
}

/// What is to be written after a file was read as `source`.
pub open spec fn outcome(source: SourceRead, delta: int) -> Result<Seq<u8>, SidecarError> {
    match source {
        SourceRead::Missing => Err(SidecarError::NotFound),
        SourceRead::Unreadable => Err(SidecarError::ReadError),
        SourceRead::Contents(text) => rewritten_text(text@, delta),
    }
}

/// What a result of lines holds.
pub open spec fn lines_result(r: Result<Vec<Vec<u8>>, SidecarError>) -> Result<
    Seq<Seq<u8>>,
    SidecarError,
> {
    match r {
        Ok(lines) => Ok(views(lines@)),
        Err(e) => Err(e),
    }
}

/// What a result of text holds.
pub open spec fn text_result(r: Result<Vec<u8>, SidecarError>) -> Result<Seq<u8>, SidecarError> {
    match r {
        Ok(text) => Ok(text@),
        Err(e) => Err(e),
    }
}

/// What an index that was found or not stands for.
pub open spec fn index_found(r: Option<usize>) -> Option<int> {
    match r {
        Some(i) => Some(i as int),
        None => None,
    }
}

impl SidecarError {
    /// The error in words.
    pub open spec fn message_text(self) -> Seq<char> {
        match self {
            SidecarError::NotFound => "the sidecar file was not found"@,
            SidecarError::ReadError => "the sidecar file could not be read"@,
            SidecarError::WriteError => "the rotated sidecar file could not be written"@,
            SidecarError::MalformedValue => "the Degree value of the sidecar file is not a number"@,
        }
    }

    /// The error in words.
    pub fn message(&self) -> (m: String)
        ensures
            m@ == self.message_text(),
    {
        match self {
            SidecarError::NotFound => String::from_str("the sidecar file was not found"),
            SidecarError::ReadError => String::from_str("the sidecar file could not be read"),
            SidecarError::WriteError => String::from_str(
                "the rotated sidecar file could not be written",
            ),
            SidecarError::MalformedValue => String::from_str(
                "the Degree value of the sidecar file is not a number",
            ),
        }
    }
}

/// The line that opens the rotation section.
pub fn marker_bytes() -> (m: Vec<u8>)
    ensures
        m@ == section_marker(),
{
    let m: Vec<u8> = vec![91u8, 82u8, 111u8, 116u8, 97u8, 116u8, 105u8, 111u8, 110u8, 93u8];
    assert(m@ =~= section_marker());
    m
}

/// The key of the rotation with its separator.
pub fn key_bytes() -> (k: Vec<u8>)
    ensures
        k@ == degree_key(),
{
    let k: Vec<u8> = vec![68u8, 101u8, 103u8, 114u8, 101u8, 101u8, 61u8];
    assert(k@ =~= degree_key());
    k
}

/// Whether `line` opens the rotation section.
pub fn is_marker_line(line: &[u8]) -> (b: bool)
    ensures
        b == is_marker(line@),
{
    let (from, to) = trim(line);
    let marker: Vec<u8> = marker_bytes();
    range_equals(line, from, to, marker.as_slice())
}

/// Whether `line` begins with the key of the rotation.
pub fn is_degree_line(line: &[u8]) -> (b: bool)
    ensures
        b == has_key(line@),
{
    let key: Vec<u8> = key_bytes();
    starts_with(line, key.as_slice())
}

/// The index of the line to rewrite, if there is one.
pub fn find_degree_line(lines: &Vec<Vec<u8>>) -> (r: Option<usize>)
    ensures
        index_found(r) == degree_line(views(lines@)),
{
    let ghost all = views(lines@);
    let mut in_section: bool = false;
    let ghost mut opened: int = 0;
    let mut i: usize = 0;
    while i < lines.len()
        invariant
            i <= lines@.len(),
            all == views(lines@),
            !in_section ==> forall|j: int| 0 <= j < i ==> !is_marker(#[trigger] all[j]),
            in_section ==> 0 <= opened < i && is_marker(all[opened]) && (forall|j: int|
                0 <= j < opened ==> !is_marker(#[trigger] all[j])) && (forall|j: int|
                opened < j < i ==> !has_key(#[trigger] all[j])),
        decreases lines@.len() - i,
    {
        assert(all[i as int] == lines@[i as int]@);
        if !in_section {
            if is_marker_line(lines[i].as_slice()) {
                in_section = true;
                proof {
                    opened = i as int;
                }
            }
        } else if is_degree_line(lines[i].as_slice()) {
            proof {
                lemma_marker_and_key(all, opened, i as int);
            }
            return Some(i);
        }
        i += 1;
    }
    proof {
        if in_section {
            lemma_marker_and_key(all, opened, all.len() as int);
        } else {
            assert forall|j: int| 0 <= j < all.len() implies !marker_test()(#[trigger] all[j]) by {
                assert(!is_marker(all[j]));
            }
            lemma_first_where(all, marker_test(), all.len() as int);
        }
    }
    None
}

proof fn lemma_marker_and_key(lines: Seq<Seq<u8>>, m: int, k: int)
    requires
        0 <= m < k <= lines.len(),
        is_marker(lines[m]),
        forall|j: int| 0 <= j < m ==> !is_marker(#[trigger] lines[j]),
        forall|j: int| m < j < k ==> !has_key(#[trigger] lines[j]),
        k == lines.len() || has_key(lines[k]),
    ensures
        first_where(lines, marker_test()) == m,
        first_where(lines.skip(m + 1), key_test()) == k - (m + 1),
        degree_line(lines) == if k < lines.len() {
            Some(k)
        } else {
            None::<int>
        },
{
    assert forall|j: int| 0 <= j < m implies !marker_test()(#[trigger] lines[j]) by {
        assert(!is_marker(lines[j]));
    }
    lemma_first_where(lines, marker_test(), m);
    let rest = lines.skip(m + 1);
    assert forall|j: int| 0 <= j < k - (m + 1) implies !key_test()(#[trigger] rest[j]) by {
        assert(rest[j] == lines[m + 1 + j]);
        assert(!has_key(lines[m + 1 + j]));
    }
    if k < lines.len() {
        assert(rest[k - (m + 1)] == lines[k]);
    }
    lemma_first_where(rest, key_test(), k - (m + 1));
}

/// Takes `delta` off the rotation that `lines` record.
///
/// Fails where the value on the line to rewrite is no numeral, or a numeral
/// for a value that no `Fixed` holds; the lines are then given up. Where no line is to be rewritten the lines come back as
/// they went in.
pub fn rewrite_lines(lines: Vec<Vec<u8>>, delta: Fixed) -> (r: Result<Vec<Vec<u8>>, SidecarError>)
    ensures
        lines_result(r) == rewritten(views(lines@), delta@),
{
    let mut lines = lines;
    let ghost before = views(lines@);
    match find_degree_line(&lines) {
        None => Ok(lines),
        Some(i) => {
            proof {
                lemma_first_where_found(before, marker_test());
                lemma_first_where_found(
                    before.skip(first_where(before, marker_test()) + 1),
                    key_test(),
                );
                assert(has_key(before[i as int]));
                assert(before[i as int] == lines@[i as int]@);
            }
            let line: &[u8] = lines[i].as_slice();
            let value: &[u8] = slice_subrange(line, KEY_LEN, line.len());
            assert(value@ =~= before[i as int].skip(KEY_LEN as int));
            match parse_decimal(value) {
                None => Err(SidecarError::MalformedValue),
                Some(recorded) => {
                    let turned: Fixed = recorded.saturating_sub(delta);
                    let mut fresh: Vec<u8> = key_bytes();
                    let numeral: Vec<u8> = format_decimal(turned);
                    append(&mut fresh, numeral.as_slice());
                    lines.set(i, fresh);
                    assert(views(lines@) =~= before.update(i as int, fresh@));
                    Ok(lines)
                },
            }
        },
    }
}

/// Takes `delta` off the rotation that `text` records, line by line.
pub fn rewrite_text(text: &[u8], delta: Fixed) -> (r: Result<Vec<u8>, SidecarError>)
    ensures
        text_result(r) == rewritten_text(text@, delta@),
{
    let lines: Vec<Vec<u8>> = split_lines(text);
    match rewrite_lines(lines, delta) {
        Ok(turned) => Ok(join_lines(&turned)),
        Err(e) => Err(e),
    }
}

/// Says what to write after the sidecar file was read as `source`: the text
/// with `delta` taken off the rotation that it records. Nothing is to be
/// written where the file was not read or the recorded value is no numeral.
pub fn apply_rotation_delta(source: SourceRead, delta: Fixed) -> (r: Result<Vec<u8>, SidecarError>)
    ensures
        text_result(r) == outcome(source, delta@),
{
    match source {
        SourceRead::Missing => Err(SidecarError::NotFound),
        SourceRead::Unreadable => Err(SidecarError::ReadError),
        SourceRead::Contents(text) => rewrite_text(text.as_slice(), delta),
    }
}

/// Closes a rewrite: it succeeded if the output was written.
pub fn conclude(written: bool) -> (r: Result<(), SidecarError>)
    ensures
        written ==> r == Ok::<(), SidecarError>(()),
        !written ==> r == Err::<(), SidecarError>(SidecarError::WriteError),
{
    if written {
        Ok(())
    } else {
        Err(SidecarError::WriteError)
    }
}

/// Where the output for the sidecar file at `path` goes: to the same name
/// with `.rot` added after it.
pub fn output_path(path: &str) -> (out: String)
    ensures
        out@ == path@ + output_suffix(),
{
    let mut out: String = String::from_str(path);
    out.append(".rot");
    proof {
        reveal_strlit(".rot");
        assert(".rot"@ =~= output_suffix());
    }
    out
}

/// Lines without a line that opens the rotation section are left as they
/// are, whatever the rotation.
pub proof fn law_untouched_without_section(lines: Seq<Seq<u8>>, delta: int)
    requires
        forall|i: int| 0 <= i < lines.len() ==> !is_marker(#[trigger] lines[i]),
    ensures
        rewritten(lines, delta) == Ok::<Seq<Seq<u8>>, SidecarError>(lines),
{
    assert forall|j: int| 0 <= j < lines.len() implies !marker_test()(#[trigger] lines[j]) by {
        assert(!is_marker(lines[j]));
    }
    lemma_first_where(lines, marker_test(), lines.len() as int);
}

/// A text without a line that opens the rotation section comes back with its
/// lines as they are, and byte for byte where it is written the plain way.
pub proof fn law_text_untouched_without_section(text: Seq<u8>, delta: int)
    requires
        forall|i: int| 0 <= i < lines_of(text).len() ==> !is_marker(#[trigger] lines_of(text)[i]),
    ensures
        rewritten_text(text, delta) == Ok::<Seq<u8>, SidecarError>(joined(lines_of(text))),
        is_plain(text) ==> rewritten_text(text, delta) == Ok::<Seq<u8>, SidecarError>(text),
{
    law_untouched_without_section(lines_of(text), delta);
    if is_plain(text) {
        law_plain_text_joins_back(text);
    }
}

/// Lines in which no line begins with the key after the rotation section
/// opens are left as they are, whatever the rotation.
pub proof fn law_untouched_without_key(lines: Seq<Seq<u8>>, delta: int)
    requires
        forall|m: int, k: int|
            #![trigger lines[m], lines[k]]
            0 <= m < k < lines.len() && is_marker(lines[m]) ==> !has_key(lines[k]),
    ensures
        rewritten(lines, delta) == Ok::<Seq<Seq<u8>>, SidecarError>(lines),
{
    let m = first_where(lines, marker_test());
    lemma_first_where_found(lines, marker_test());
    if m < lines.len() {
        let rest = lines.skip(m + 1);
        lemma_first_where_found(rest, key_test());
        let k = first_where(rest, key_test());
        if k < rest.len() {
            assert(rest[k] == lines[m + 1 + k]);
            assert(has_key(lines[m + 1 + k]));
            assert(false);
        }
    }
}

/// A rewrite keeps the number and the order of the lines and changes no line
/// but the one to rewrite. That line keeps its key, and its new numeral reads
/// back as the recorded value less the rotation.
pub proof fn law_only_degree_changes(lines: Seq<Seq<u8>>, delta: int)
    requires
        rewritten(lines, delta) is Ok,
    ensures
        rewritten(lines, delta)->Ok_0.len() == lines.len(),
        forall|j: int|
            0 <= j < lines.len() && degree_line(lines) != Some(j) ==> rewritten(
                lines,
                delta,
            )->Ok_0[j] == #[trigger] lines[j],
        degree_line(lines) matches Some(i) ==> {
            let line = rewritten(lines, delta)->Ok_0[i];
            let recorded = decimal_value(lines[i].skip(KEY_LEN as int))->Some_0;
            &&& has_key(line)
            &&& decimal_value(line.skip(KEY_LEN as int)) == Some(saturated(recorded - delta))
        },
{
    let m = first_where(lines, marker_test());
    lemma_first_where_found(lines, marker_test());
    if m < lines.len() {
        lemma_first_where_found(lines.skip(m + 1), key_test());
    }
    match degree_line(lines) {
        None => {},
        Some(i) => {
            let recorded = decimal_value(lines[i].skip(KEY_LEN as int))->Some_0;
            let turned = saturated(recorded - delta);
            let line = degree_key() + decimal_text(turned);
            law_text_reads_back(turned);
            assert(line.take(KEY_LEN as int) =~= degree_key());
            assert(line.skip(KEY_LEN as int) =~= decimal_text(turned));
        },
    }
}

/// The output never goes where the input is, and two inputs share an output
/// only if they are the same.
pub proof fn law_output_apart(path: Seq<char>, other: Seq<char>)
    ensures
        path + output_suffix() != path,
        path + output_suffix() == other + output_suffix() ==> path == other,
        !has_suffix(other, output_suffix()) ==> path + output_suffix() != other,
{
    let out = path + output_suffix();
    assert(out.len() == path.len() + 4);
    if out == other + output_suffix() {
        assert(path.len() == other.len());
        assert forall|i: int| 0 <= i < path.len() implies path[i] == other[i] by {
            assert(out[i] == path[i]);
            assert((other + output_suffix())[i] == other[i]);
        }
        assert(path =~= other);
    }
    if out == other {
        assert(other.skip(other.len() - 4) =~= output_suffix());
    }
}

/// Whether `s` ends with `suffix`.
pub open spec fn has_suffix(s: Seq<char>, suffix: Seq<char>) -> bool {
    s.len() >= suffix.len() && s.skip(s.len() - suffix.len()) == suffix
}

} // verus!
