//! What the tasks read of a software bill of materials.
//!
//! A document is decoded by `serde_json` into the types of the `spdx_rs`
//! crate. The tasks read a handful of its fields; those are held here as
//! plain values.

use crate::license::is_tame;
use spdx_rs::models::SPDX;
use vstd::prelude::*;

verus! {

/// A reference from a package to an entry of some outside catalogue.
#[derive(Debug, Clone, PartialEq, Eq)]
pub struct ExternalReference {
    /// The kind of catalogue, such as `cpe22Type`.
    pub reference_type: String,
    /// The entry in that catalogue.
    pub reference_locator: String,
}

/// One package of a document.
#[derive(Debug, Clone, PartialEq, Eq)]
pub struct Package {
    /// The identifier by which the document refers to the package.
    pub package_spdx_identifier: String,
    pub package_name: String,
    pub external_reference: Vec<ExternalReference>,
}

/// A decoded document.
#[derive(Debug, Clone, PartialEq, Eq)]
pub struct Sbom {
    pub document_name: String,
    /// The identifiers of the packages that the document is about.
    pub document_describes: Vec<String>,
    pub package_information: Vec<Package>,
}

/// What an `ExternalReference` is.
pub struct ExternalReferenceView {
    pub reference_type: Seq<char>,
    pub reference_locator: Seq<char>,
}

/// What a `Package` is.
pub struct PackageView {
    pub package_spdx_identifier: Seq<char>,
    pub package_name: Seq<char>,
    pub external_reference: Seq<ExternalReferenceView>,
}

/// What an `Sbom` is.
pub struct SbomView {
    pub document_name: Seq<char>,
    pub document_describes: Seq<Seq<char>>,
    pub package_information: Seq<PackageView>,
}

impl View for ExternalReference {
    type V = ExternalReferenceView;

    open spec fn view(&self) -> ExternalReferenceView {
        ExternalReferenceView {
            reference_type: self.reference_type@,
            reference_locator: self.reference_locator@,
        }
    }
}

impl View for Package {
    type V = PackageView;

    open spec fn view(&self) -> PackageView {
        PackageView {
            package_spdx_identifier: self.package_spdx_identifier@,
            package_name: self.package_name@,
            external_reference: Seq::new(
                self.external_reference.len() as nat,
                |i: int| self.external_reference[i]@,
            ),
        }
    }
}

impl View for Sbom {
    type V = SbomView;

    open spec fn view(&self) -> SbomView {
        SbomView {
            document_name: self.document_name@,
            document_describes: Seq::new(
                self.document_describes.len() as nat,
                |i: int| self.document_describes[i]@,
            ),
            package_information: Seq::new(
                self.package_information.len() as nat,
                |i: int| self.package_information[i]@,
            ),
        }
    }
}

/// What `serde_json::from_slice` makes of the bytes of a document when it
/// decodes them as the `SPDX` of `spdx_rs`: the fields above of the document,
/// or the message of its error.
pub uninterp spec fn sbom_decoded(data: Seq<u8>) -> Result<SbomView, Seq<char>>;

/// What an outcome of the decoder is, over sequences.
pub open spec fn decoded_view(outcome: Result<Sbom, String>) -> Result<SbomView, Seq<char>> {
    match outcome {
        Ok(sbom) => Ok(sbom@),
        Err(message) => Err(message@),
    }
}

/// Calls `serde_json::from_slice` to decode `data` as the `SPDX` of
/// `spdx_rs`. The contract claims that the outcome depends on the bytes
/// alone. On success the fields that the tasks read are moved over as they
/// are; on failure the error is handed over as its message. The call is made
/// on tame bytes only: on others the parser of license expressions, which
/// the decoder calls, may run out of stack or panic.
#[verifier::external_body]
pub(crate) fn decode_sbom(data: &[u8]) -> (outcome: Result<Sbom, String>)
    requires
        is_tame(data@),
    ensures
        decoded_view(outcome) == sbom_decoded(data@),
{
    let spdx: SPDX = serde_json::from_slice(data).map_err(|e| e.to_string())?;
    let package_information = spdx.package_information.into_iter().map(|p| Package {
        package_spdx_identifier: p.package_spdx_identifier,
        package_name: p.package_name,
        external_reference: p.external_reference.into_iter().map(|r| ExternalReference {
            reference_type: r.reference_type,
            reference_locator: r.reference_locator,
        }).collect(),
    }).collect();
    let creation = spdx.document_creation_information;
    Ok(Sbom { document_name: creation.document_name, document_describes: creation.document_describes, package_information })
}

} // verus!
