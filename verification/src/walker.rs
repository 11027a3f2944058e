//! From a directory of packed documents to decoded ones.
//!
//! The scanner picks the candidates out of a directory listing. Each
//! candidate is unpacked by the `bzip2` crate and decoded; a candidate that
//! does not unpack ends the run, one that does not decode is left out.

use crate::license::{is_tame, tame};
use crate::sbom::{decode_sbom, sbom_decoded, Sbom, SbomView};
use crate::text::texts_view;
use bzip2::read::BzDecoder;
use std::io::Read;
use vstd::prelude::*;
use vstd::string::*;

verus! {

/// What the names of the candidates end with.
pub const SUFFIX: &'static str = ".bz2";

/// One entry of a directory listing.
#[derive(Debug, Clone, PartialEq, Eq)]
pub struct DirectoryEntry {
    /// The name of the entry, if it can be written as text.
    pub name: Option<String>,
    /// Whether the entry is a regular file.
    pub is_file: bool,
}

/// Why a directory listing gives no candidates.
#[derive(Debug, Clone, Copy, PartialEq, Eq, Structural)]
pub enum ScanError {
    /// The name of a regular file cannot be written as text.
    UnreadableName,
}

/// Whether `name` ends with `suffix`.
pub open spec fn ends_with(name: Seq<char>, suffix: Seq<char>) -> bool {
    name.len() >= suffix.len() && name.subrange(name.len() - suffix.len(), name.len() as int)
        == suffix
}

/// Whether an entry is a candidate: a regular file whose name ends with the
/// suffix.
pub open spec fn is_candidate(entry: DirectoryEntry) -> bool {
    &&& entry.is_file
    &&& entry.name matches Some(name)
    &&& ends_with(name@, SUFFIX@)
}

/// Whether an entry is a regular file whose name cannot be written as text.
pub open spec fn is_unreadable(entry: DirectoryEntry) -> bool {
    entry.is_file && entry.name is None
}

/// The names of the candidates among the entries, in the order of the
/// entries.
pub open spec fn candidates_of(entries: Seq<DirectoryEntry>) -> Seq<Seq<char>>
    decreases entries.len(),
{
    if entries.len() == 0 {
        Seq::empty()
    } else if is_candidate(entries.last()) {
        candidates_of(entries.drop_last()).push(entries.last().name->0@)
    } else {
        candidates_of(entries.drop_last())
    }
}

/// Whether `name` ends with `suffix`.
pub fn has_suffix(name: &str, suffix: &str) -> (found: bool)
    ensures
        found == ends_with(name@, suffix@),
{
    let length = name.unicode_len();
    let wanted = suffix.unicode_len();
    if length < wanted {
        return false;
    }
    let start = length - wanted;
    let ghost tail = name@.subrange(start as int, length as int);
    let mut i: usize = 0;
    while i < wanted
        invariant
            i <= wanted,
            wanted == suffix@.len(),
            length == name@.len(),
            start + wanted == length,
            tail == name@.subrange(start as int, length as int),
            forall|j: int| 0 <= j < i ==> tail[j] == suffix@[j],
        decreases wanted - i,
    {
        if name.get_char(start + i) != suffix.get_char(i) {
            assert(tail[i as int] != suffix@[i as int]);
            return false;
        }
        i += 1;
    }
    assert(tail =~= suffix@);
    true
}

/// Picks the candidates out of a directory listing: the regular files whose
/// names end with the suffix, in the order of the listing. A regular file
/// whose name cannot be written as text makes the listing unusable.
pub fn select_candidates(entries: &Vec<DirectoryEntry>) -> (outcome: Result<Vec<String>, ScanError>)
    ensures
        outcome is Err <==> exists|i: int|
            0 <= i < entries.len() && is_unreadable(#[trigger] entries[i]),
        outcome matches Ok(names) ==> texts_view(names@) == candidates_of(entries@),
{
    let mut names: Vec<String> = Vec::new();
    let mut i: usize = 0;
    while i < entries.len()
        invariant
            i <= entries.len(),
            forall|j: int| 0 <= j < i ==> !is_unreadable(#[trigger] entries[j]),
            texts_view(names@) == candidates_of(entries@.take(i as int)),
        decreases entries.len() - i,
    {
        proof {
            assert(entries@.take(i + 1).drop_last() =~= entries@.take(i as int));
            assert(entries@.take(i + 1).last() == entries[i as int]);
        }
        if entries[i].is_file {
            match &entries[i].name {
                None => {
                    assert(is_unreadable(entries[i as int]));
                    return Err(ScanError::UnreadableName);
                },
                Some(name) => {
                    if has_suffix(name.as_str(), SUFFIX) {
                        let ghost before = names@;
                        names.push(name.clone());
                        assert(texts_view(names@) =~= texts_view(before).push(name@));
                    }
                },
            }
        }
        i += 1;
    }
    assert(entries@.take(entries.len() as int) =~= entries@);
    Ok(names)
}

/// What became of one candidate.
#[derive(Debug, Clone, PartialEq, Eq)]
pub enum Processed {
    /// It was unpacked and decoded.
    Document(Sbom),
    /// It was unpacked but is no document, or its bytes are not tame; the
    /// message says why. The run goes on without it.
    Skipped(String),
}

/// A candidate that could not be unpacked. This ends the run.
#[derive(Debug, Clone, PartialEq, Eq)]
pub struct ReadError {
    /// The unpacker's own account of what is wrong.
    pub message: String,
}

/// What a `Processed` is.
pub enum ProcessedView {
    Document(SbomView),
    Skipped(Seq<char>),
}

impl View for Processed {
    type V = ProcessedView;

    open spec fn view(&self) -> ProcessedView {
        match self {
            Processed::Document(sbom) => ProcessedView::Document(sbom@),
            Processed::Skipped(message) => ProcessedView::Skipped(message@),
        }
    }
}

/// What an outcome of `process_sbom` is, over sequences.
pub open spec fn outcome_view(outcome: Result<Processed, ReadError>) -> Result<
    ProcessedView,
    Seq<char>,
> {
    match outcome {
        Ok(processed) => Ok(processed@),
        Err(error) => Err(error.message@),
    }
}

/// What reading a `bzip2::read::BzDecoder` over the bytes `packed` to its end
/// gives: the unpacked bytes, or the message of the error.
pub uninterp spec fn unpacked(packed: Seq<u8>) -> Result<Seq<u8>, Seq<char>>;

/// Why a candidate is skipped whose bytes are not tame.
pub const UNTAMED: &'static str =
    "a license expression nests its brackets too deep, strings too many operators together, or ends within a reference to another document";

/// What unpacked bytes, or the failure to unpack, come to: an error that ends
/// the run where the bytes did not unpack; else a skip where the bytes are
/// not tame; else the decoded document, or a skip with the decoder's message.
pub open spec fn processed_of(unpacked: Result<Seq<u8>, Seq<char>>) -> Result<
    ProcessedView,
    Seq<char>,
> {
    match unpacked {
        Err(message) => Err(message),
        Ok(data) => if !is_tame(data) {
            Ok(ProcessedView::Skipped(UNTAMED@))
        } else {
            match sbom_decoded(data) {
                Ok(sbom) => Ok(ProcessedView::Document(sbom)),
                Err(message) => Ok(ProcessedView::Skipped(message)),
            }
        },
    }
}

/// What an outcome of the unpacker is, over sequences.
pub open spec fn unpacked_view(outcome: Result<Vec<u8>, String>) -> Result<Seq<u8>, Seq<char>> {
    match outcome {
        Ok(data) => Ok(data@),
        Err(message) => Err(message@),
    }
}

/// Reads a `bzip2::read::BzDecoder` over `packed` to its end with
/// `read_to_end`. The contract claims that the outcome depends on the bytes
/// alone: the unpacked bytes, or the error as its message.
#[verifier::external_body]
fn unpack(packed: &[u8]) -> (outcome: Result<Vec<u8>, String>)
    ensures
        unpacked_view(outcome) == unpacked(packed@),
{
    let mut data = Vec::new();
    BzDecoder::new(packed).read_to_end(&mut data).map_err(|e| e.to_string())?;
    Ok(data)
}

/// Decides what unpacked bytes, or the failure to unpack, come to.
pub fn decode_unpacked(unpacked: Result<Vec<u8>, String>) -> (outcome: Result<
    Processed,
    ReadError,
>)
    ensures
        outcome_view(outcome) == processed_of(unpacked_view(unpacked)),
{
    match unpacked {
        Err(message) => Err(ReadError { message }),
        Ok(data) => if !tame(data.as_slice()) {
            Ok(Processed::Skipped(String::from_str(UNTAMED)))
        } else {
            match decode_sbom(data.as_slice()) {
                Ok(sbom) => Ok(Processed::Document(sbom)),
                Err(message) => Ok(Processed::Skipped(message)),
            }
        },
    }
}

/// Turns the packed bytes of one candidate into a document.
pub fn process_sbom(packed: &[u8]) -> (outcome: Result<Processed, ReadError>)
    ensures
        outcome_view(outcome) == processed_of(unpacked(packed@)),
{
    decode_unpacked(unpack(packed))
}

} // verus!
