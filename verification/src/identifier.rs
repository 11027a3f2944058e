//! The structured form of a product identifier.
//!
//! An identifier names a product by eleven attributes in a fixed order. Each
//! attribute either holds a concrete token or stands for any value. The text
//! of an identifier is taken apart by the `cpe` crate; this module turns what
//! that parser yields into the form that identifiers are compared in.

use crate::normalize::{fixup_cpe, normalized};
use crate::text::same_text;
use cpe::component::Component;
use cpe::cpe::{Cpe, Language};
use cpe::uri::Uri;
use vstd::prelude::*;
use vstd::string::*;

verus! {

/// The number of attributes of an identifier.
pub const FIELDS: usize = 11;

/// The places of the attributes of an identifier.
pub const PART: usize = 0;

pub const VENDOR: usize = 1;

pub const PRODUCT: usize = 2;

pub const VERSION: usize = 3;

pub const UPDATE: usize = 4;

pub const EDITION: usize = 5;

pub const LANGUAGE: usize = 6;

pub const SW_EDITION: usize = 7;

pub const TARGET_SW: usize = 8;

pub const TARGET_HW: usize = 9;

pub const OTHER: usize = 10;

/// The number of attributes that the parser yields as components: all but
/// the part and the language.
pub const COMPONENTS: usize = 9;

/// The word by which the parser prints "any value".
pub const ANY_WORD: &'static str = "ANY";

/// One attribute of an identifier.
#[derive(Debug, Clone, PartialEq, Eq)]
pub enum Field {
    /// Any value: compatible with whatever the other side holds.
    Any,
    /// The attribute is marked as having no value that applies. This is a
    /// concrete statement: it equals nothing but itself.
    NotApplicable,
    /// A concrete token.
    Value(String),
}

/// What a `Field` is, with its token as a sequence of characters.
pub enum FieldView {
    Any,
    NotApplicable,
    Value(Seq<char>),
}

impl View for Field {
    type V = FieldView;

    open spec fn view(&self) -> FieldView {
        match self {
            Field::Any => FieldView::Any,
            Field::NotApplicable => FieldView::NotApplicable,
            Field::Value(token) => FieldView::Value(token@),
        }
    }
}

impl FieldView {
    /// A concrete token is never empty.
    pub open spec fn wf(self) -> bool {
        self matches FieldView::Value(token) ==> token.len() > 0
    }

    /// The attribute with an empty token read as "any value".
    pub open spec fn settled(self) -> FieldView {
        match self {
            FieldView::Value(token) if token.len() == 0 => FieldView::Any,
            _ => self,
        }
    }
}

/// The attribute that a token of the parser stands for, where the parser
/// spells "any value" as the word `any_word`.
pub open spec fn field_of_token(token: Seq<char>, any_word: Seq<char>) -> FieldView {
    if token.len() == 0 || token == any_word {
        FieldView::Any
    } else {
        FieldView::Value(token)
    }
}

/// What the parser yields for the text of one identifier.
#[derive(Debug, Clone, PartialEq, Eq)]
pub struct ParsedUri {
    /// The part, as the parser prints it: `ANY`, `h`, `o`, `a`, or nothing.
    pub part: String,
    /// Vendor, product, version, update, edition, software edition, target
    /// software, target hardware and other, in this order.
    pub components: [Field; 9],
    /// The language tag, if the text gives one.
    pub language: Option<String>,
    /// The identifier as the parser prints it.
    pub rendered: String,
}

/// What a `ParsedUri` is, over sequences of characters.
pub struct ParsedUriView {
    pub part: Seq<char>,
    pub components: Seq<FieldView>,
    pub language: Option<Seq<char>>,
    pub rendered: Seq<char>,
}

impl View for ParsedUri {
    type V = ParsedUriView;

    open spec fn view(&self) -> ParsedUriView {
        ParsedUriView {
            part: self.part@,
            components: Seq::new(COMPONENTS as nat, |i: int| self.components@[i]@),
            language: match self.language {
                Some(tag) => Some(tag@),
                None => None,
            },
            rendered: self.rendered@,
        }
    }
}

/// Why a text is no identifier.
#[derive(Debug, Clone, PartialEq, Eq)]
pub struct ParseError {
    /// The parser's own account of what is wrong.
    pub message: String,
}

impl View for ParseError {
    type V = Seq<char>;

    open spec fn view(&self) -> Seq<char> {
        self.message@
    }
}

/// What `cpe::uri::Uri::parse` makes of a text: the attributes and the
/// printed form of the URI that it returns, or the message of its error.
pub uninterp spec fn uri_parse_result(raw: Seq<char>) -> Result<ParsedUriView, Seq<char>>;

/// What a result of the parser is, over sequences of characters.
pub open spec fn parse_outcome_view(outcome: Result<ParsedUri, String>) -> Result<
    ParsedUriView,
    Seq<char>,
> {
    match outcome {
        Ok(parsed) => Ok(parsed@),
        Err(message) => Err(message@),
    }
}

/// Calls `cpe::uri::Uri::parse` on `raw`. The contract claims that the
/// outcome depends on the text alone. On success the attributes are handed
/// over one for one: the part and the whole URI as they print, the language
/// tag as it prints, each component by its variant. On failure the error is
/// handed over as its message.
#[verifier::external_body]
fn uri_parse(raw: &str) -> (outcome: Result<ParsedUri, String>)
    ensures
        parse_outcome_view(outcome) == uri_parse_result(raw@),
{
    let uri = Uri::parse(raw).map_err(|e| e.to_string())?;
    let components = [
        uri.vendor(), uri.product(), uri.version(), uri.update(), uri.edition(),
        uri.sw_edition(), uri.target_sw(), uri.target_hw(), uri.other(),
    ].map(|c| match c {
        Component::Any => Field::Any,
        Component::NotApplicable => Field::NotApplicable,
        Component::Value(token) => Field::Value(token.into_owned()),
    });
    let language = match uri.language() {
        Language::Any => None,
        Language::Language(tag) => Some(tag.to_string()),
    };
    Ok(ParsedUri { part: uri.part().to_string(), components, language, rendered: uri.to_string() })
}

/// A product identifier: eleven attributes, and the text that the parser
/// prints for it. The attributes are fixed once the identifier is made.
#[derive(Debug, PartialEq, Eq)]
pub struct SoftwareIdentifier {
    part: Field,
    vendor: Field,
    product: Field,
    version: Field,
    update: Field,
    edition: Field,
    language: Field,
    sw_edition: Field,
    target_sw: Field,
    target_hw: Field,
    other: Field,
    text: String,
}

/// What a `SoftwareIdentifier` is: its attributes in their order (part,
/// vendor, product, version, update, edition, language, software edition,
/// target software, target hardware, other), and its text.
pub struct IdentifierView {
    pub fields: Seq<FieldView>,
    pub text: Seq<char>,
}

impl IdentifierView {
    /// There are eleven attributes, and no concrete token is empty.
    pub open spec fn wf(self) -> bool {
        &&& self.fields.len() == FIELDS
        &&& forall|i: int| 0 <= i < FIELDS ==> (#[trigger] self.fields[i]).wf()
    }
}

impl View for SoftwareIdentifier {
    type V = IdentifierView;

    closed spec fn view(&self) -> IdentifierView {
        IdentifierView {
            fields: seq![
                self.part@,
                self.vendor@,
                self.product@,
                self.version@,
                self.update@,
                self.edition@,
                self.language@,
                self.sw_edition@,
                self.target_sw@,
                self.target_hw@,
                self.other@,
            ],
            text: self.text@,
        }
    }
}

/// The identifier that the parser's attributes stand for. The part and the
/// language are read from their tokens; an attribute that was left empty
/// stands for any value.
pub open spec fn identifier_of(parsed: ParsedUriView) -> IdentifierView {
    IdentifierView {
        fields: seq![
            field_of_token(parsed.part, ANY_WORD@),
            parsed.components[0].settled(),
            parsed.components[1].settled(),
            parsed.components[2].settled(),
            parsed.components[3].settled(),
            parsed.components[4].settled(),
            match parsed.language {
                Some(tag) => FieldView::Value(tag).settled(),
                None => FieldView::Any,
            },
            parsed.components[5].settled(),
            parsed.components[6].settled(),
            parsed.components[7].settled(),
            parsed.components[8].settled(),
        ],
        text: parsed.rendered,
    }
}

/// What `parse` makes of a text: the identifier that the parser's reading of
/// the normal form stands for, or the parser's message.
pub open spec fn parse_spec(raw: Seq<char>) -> Result<IdentifierView, Seq<char>> {
    match uri_parse_result(normalized(raw)) {
        Ok(parsed) => Ok(identifier_of(parsed)),
        Err(message) => Err(message),
    }
}

/// A copy of an attribute, with an empty token read as "any value".
fn settle(field: &Field) -> (settled: Field)
    ensures
        settled@ == field@.settled(),
{
    match field {
        Field::Any => Field::Any,
        Field::NotApplicable => Field::NotApplicable,
        Field::Value(token) => {
            if token.as_str().is_empty() {
                Field::Any
            } else {
                Field::Value(token.clone())
            }
        },
    }
}

/// The attribute that a token of the parser stands for.
fn field_from_token(token: String) -> (field: Field)
    ensures
        field@ == field_of_token(token@, ANY_WORD@),
{
    if token.as_str().is_empty() || same_text(token.as_str(), ANY_WORD) {
        Field::Any
    } else {
        Field::Value(token)
    }
}

impl SoftwareIdentifier {
    /// No concrete token of an identifier is empty.
    #[verifier::type_invariant]
    spec fn tokens_not_empty(self) -> bool {
        &&& self.part@.wf()
        &&& self.vendor@.wf()
        &&& self.product@.wf()
        &&& self.version@.wf()
        &&& self.update@.wf()
        &&& self.edition@.wf()
        &&& self.language@.wf()
        &&& self.sw_edition@.wf()
        &&& self.target_sw@.wf()
        &&& self.target_hw@.wf()
        &&& self.other@.wf()
    }

    /// The attribute at `index`, counted from the part.
    pub fn field(&self, index: usize) -> (field: &Field)
        requires
            index < FIELDS,
        ensures
            field@ == self@.fields[index as int],
            self@.wf(),
    {
        proof {
            use_type_invariant(self);
        }
        match index {
            0 => &self.part,
            1 => &self.vendor,
            2 => &self.product,
            3 => &self.version,
            4 => &self.update,
            5 => &self.edition,
            6 => &self.language,
            7 => &self.sw_edition,
            8 => &self.target_sw,
            9 => &self.target_hw,
            _ => &self.other,
        }
    }

    /// The text that the parser prints for the identifier.
    pub fn text(&self) -> (text: &str)
        ensures
            text@ == self@.text,
    {
        self.text.as_str()
    }

    /// Makes the identifier that the parser's attributes stand for.
    pub fn from_parsed(parsed: ParsedUri) -> (id: SoftwareIdentifier)
        ensures
            id@ == identifier_of(parsed@),
            id@.wf(),
    {
        let language = match parsed.language {
            Some(tag) => settle(&Field::Value(tag)),
            None => Field::Any,
        };
        let id = SoftwareIdentifier {
            part: field_from_token(parsed.part),
            vendor: settle(&parsed.components[0]),
            product: settle(&parsed.components[1]),
            version: settle(&parsed.components[2]),
            update: settle(&parsed.components[3]),
            edition: settle(&parsed.components[4]),
            language,
            sw_edition: settle(&parsed.components[5]),
            target_sw: settle(&parsed.components[6]),
            target_hw: settle(&parsed.components[7]),
            other: settle(&parsed.components[8]),
            text: parsed.rendered,
        };
        assert(id@.fields =~= identifier_of(parsed@).fields);
        id
    }

    /// Reads an identifier from its text: the text is normalized, then taken
    /// apart by the parser. A text that the parser does not take is no
    /// identifier; the error says why.
    pub fn parse(raw: &str) -> (outcome: Result<SoftwareIdentifier, ParseError>)
        ensures
            match parse_spec(raw@) {
                Ok(id) => outcome matches Ok(made) && made@ == id && made@.wf(),
                Err(message) => outcome matches Err(error) && error@ == message,
            },
    {
        let fixed = fixup_cpe(String::from_str(raw));
        match uri_parse(fixed.as_str()) {
            Ok(parsed) => Ok(SoftwareIdentifier::from_parsed(parsed)),
            Err(message) => Err(ParseError { message }),
        }
    }
}

} // verus!
