//! Output format selection: the deciding half of persisting a dataset.
//! The writing itself is plain I/O, but which writer to use is read off
//! the output path's name, and an unsupported format must be rejected
//! before any partial write. That decision is made here, over the path's
//! bytes.

use vstd::prelude::*;
use crate::errors::DedupeError;

verus! {

/// A supported on-disk format for the deduplicated dataset.
#[derive(Clone, Copy, PartialEq, Eq, Structural, Debug)]
pub enum OutputFormat {
    /// Delimited text.
    Csv,
    /// Structured text.
    Json,
    /// Tabular binary: a spreadsheet workbook.
    Xlsx,
}

/// Whether `s` ends with `suffix`.
pub open spec fn ends_with(s: Seq<u8>, suffix: Seq<u8>) -> bool {
    suffix.len() <= s.len() && s.subrange(s.len() - suffix.len(), s.len() as int) == suffix
}

/// The bytes of ".csv".
pub open spec fn csv_suffix() -> Seq<u8> {
    seq![46u8, 99u8, 115u8, 118u8]
}

/// The bytes of ".json".
pub open spec fn json_suffix() -> Seq<u8> {
    seq![46u8, 106u8, 115u8, 111u8, 110u8]
}

/// The bytes of ".xlsx".
pub open spec fn xlsx_suffix() -> Seq<u8> {
    seq![46u8, 120u8, 108u8, 115u8, 120u8]
}

/// Whether the byte string ends with the given suffix.
fn bytes_end_with(s: &Vec<u8>, suffix: &Vec<u8>) -> (r: bool)
    ensures
        r == ends_with(s@, suffix@),
{
    if suffix.len() > s.len() {
        return false;
    }
    let n = s.len();
    let off = n - suffix.len();
    let mut i: usize = 0;
    while i < suffix.len()
        invariant
            i <= suffix.len(),
            n == s@.len(),
            off + suffix@.len() == n,
            forall|j: int| 0 <= j < i ==> s@[off + j] == suffix@[j],
        decreases suffix.len() - i,
    {
        assert(off + i < n);
        if s[off + i] != suffix[i] {
            proof {
                let sub = s@.subrange(s@.len() - suffix@.len(), s@.len() as int);
                assert(sub[i as int] != suffix@[i as int]);
            }
            return false;
        }
        i += 1;
    }
    proof {
        assert(s@.subrange(s@.len() - suffix@.len(), s@.len() as int) =~= suffix@);
    }
    true
}

/// The bytes of ".csv", as a vector.
fn csv_suffix_bytes() -> (r: Vec<u8>)
    ensures
        r@ == csv_suffix(),
{
    let mut v: Vec<u8> = Vec::new();
    v.push(46);
    v.push(99);
    v.push(115);
    v.push(118);
    proof {
        assert(v@ =~= csv_suffix());
    }
    v
}

/// The bytes of ".json", as a vector.
fn json_suffix_bytes() -> (r: Vec<u8>)
    ensures
        r@ == json_suffix(),
{
    let mut v: Vec<u8> = Vec::new();
    v.push(46);
    v.push(106);
    v.push(115);
    v.push(111);
    v.push(110);
    proof {
        assert(v@ =~= json_suffix());
    }
    v
}

/// The bytes of ".xlsx", as a vector.
fn xlsx_suffix_bytes() -> (r: Vec<u8>)
    ensures
        r@ == xlsx_suffix(),
{
    let mut v: Vec<u8> = Vec::new();
    v.push(46);
    v.push(120);
    v.push(108);
    v.push(115);
    v.push(120);
    proof {
        assert(v@ =~= xlsx_suffix());
    }
    v
}

/// Selects the output format from the output path's name, given as its
/// bytes: ".csv" means delimited text, ".json" structured text, ".xlsx" a
/// workbook; any other name is rejected, before a write could begin.
pub fn output_format_of(path: &Vec<u8>) -> (r: Result<OutputFormat, DedupeError>)
    ensures
        ends_with(path@, csv_suffix()) ==> r == Result::<OutputFormat, DedupeError>::Ok(
            OutputFormat::Csv,
        ),
        !ends_with(path@, csv_suffix()) && ends_with(path@, json_suffix()) ==> r
            == Result::<OutputFormat, DedupeError>::Ok(OutputFormat::Json),
        !ends_with(path@, csv_suffix()) && !ends_with(path@, json_suffix()) && ends_with(
            path@,
            xlsx_suffix(),
        ) ==> r == Result::<OutputFormat, DedupeError>::Ok(OutputFormat::Xlsx),
        !ends_with(path@, csv_suffix()) && !ends_with(path@, json_suffix()) && !ends_with(
            path@,
            xlsx_suffix(),
        ) ==> r == Result::<OutputFormat, DedupeError>::Err(DedupeError::UnsupportedOutputFormat),
{
    let csv = csv_suffix_bytes();
    let json = json_suffix_bytes();
    let xlsx = xlsx_suffix_bytes();
    if bytes_end_with(path, &csv) {
        Ok(OutputFormat::Csv)
    } else if bytes_end_with(path, &json) {
        Ok(OutputFormat::Json)
    } else if bytes_end_with(path, &xlsx) {
        Ok(OutputFormat::Xlsx)
    } else {
        Err(DedupeError::UnsupportedOutputFormat)
    }
}

} // verus!
