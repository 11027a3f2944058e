//! Which documents the decoder can be let loose on.
//!
//! The decoder reads three members of a document as license expressions,
//! with a parser that has no limits of its own: it calls itself once for each
//! level of round brackets, the expression it builds is freed with one call
//! inside the other for each operator, and it panics on an expression that
//! ends within a reference to another document. The scan below walks the
//! bytes of a document once, finds the texts of these members, and holds
//! each against two limits and against that ending.

use vstd::prelude::*;
use vstd::slice::*;
use vstd::string::*;

verus! {

/// The deepest nesting of round brackets that a license expression may have.
/// On a stack of two mebibytes the parser was seen to take twice as many.
pub const MAX_DEPTH: usize = 128;

/// The most operators that a license expression may string together. On a
/// stack of two mebibytes twice as many were seen to be freed.
pub const MAX_LINKS: usize = 16384;

/// The members of a document whose texts are license expressions.
pub const CONCLUDED: &'static str = "licenseConcluded";

pub const DECLARED: &'static str = "licenseDeclared";

pub const IN_FILES: &'static str = "licenseInfoInFiles";

/// How a reference to another document starts.
pub const REFERENCE: &'static str = "DocumentRef-";

/// What stands for a character beyond ASCII. No name, bracket, space or
/// letter of an operator is one.
pub const OTHER: u8 = 0x80;

/// What the scan knows of the text at hand.
#[derive(Debug, Clone, Copy, PartialEq, Eq, Structural)]
pub struct Text {
    /// How many round brackets are open, up to one beyond the limit.
    pub depth: usize,
    /// Whether more brackets were open at some place than the limit allows.
    pub deep: bool,
    /// How many operators were read, up to one beyond the limit.
    pub links: usize,
    /// How much of an operator is read: nothing (0), the `o` of `or` (1), the
    /// `a` of `and` (2), or the `an` of `and` (3).
    pub word: u8,
    /// Whether an operand is due: at the start, after an opening bracket and
    /// after an operator. The word that follows is no operator.
    pub fresh: bool,
    /// The last character, the one before it, and the one before that.
    pub last: u8,
    pub before: u8,
    pub third: u8,
    /// How much of the word `with` is read.
    pub with: u8,
    /// Whether the word `with` and after it nothing but space was read.
    pub gap: bool,
    /// How much of the start of a reference is read.
    pub seen: usize,
    /// Whether the reference being read stands where an operand can start.
    pub armed: bool,
    /// Whether the start of such a reference was read, and nothing but a
    /// name since.
    pub after: bool,
    /// Whether that name has a character at least.
    pub named: bool,
    /// How much of each member's name the text has matched, or the largest
    /// number where it differs.
    pub concluded: usize,
    pub declared: usize,
    pub in_files: usize,
}

/// What the scan knows at one place of a document.
#[derive(Debug, Clone, Copy, PartialEq, Eq, Structural)]
pub struct Scan {
    /// Whether no license expression so far was refused.
    pub tame: bool,
    /// Whether the place is inside a text, between two quotes.
    pub inside: bool,
    /// Whether the text at hand is a license expression.
    pub checked: bool,
    /// Whether the last text was the name of a member with license
    /// expressions, and nothing but space came since.
    pub keyed: bool,
    /// Whether the value of such a member is due.
    pub awaiting: bool,
    /// Whether the place is inside a list that is the value of such a member.
    pub listing: bool,
    /// How many lists and objects are open inside that list, itself counted.
    pub nesting: usize,
    /// Where the place stands in an escape: not in one (0), after the
    /// backslash (1), or after the `u` and so many hex digits (2 to 5).
    pub escape: u8,
    /// The code point of the escape as far as it is read.
    pub code: u32,
    /// The text at hand.
    pub text: Text,
}

/// Whether a character is a letter, a digit, a hyphen or a full stop: what a
/// name in a license expression is made of.
pub open spec fn is_name(c: u8) -> bool {
    ||| 0x30 <= c <= 0x39
    ||| 0x41 <= c <= 0x5a
    ||| 0x61 <= c <= 0x7a
    ||| c == 0x2d
    ||| c == 0x2e
}

/// Whether a character is a space, a tab, a line feed or a carriage return.
pub open spec fn is_space(c: u8) -> bool {
    c == 0x20 || c == 0x09 || c == 0x0a || c == 0x0d
}

/// A character with a capital letter made small.
pub open spec fn lower(c: u8) -> u8 {
    if 0x41 <= c <= 0x5a {
        (c + 0x20) as u8
    } else {
        c
    }
}

/// The letters of the word `with`.
pub open spec fn with_letter(place: u8) -> u8 {
    if place == 0 {
        0x77
    } else if place == 1 {
        0x69
    } else if place == 2 {
        0x74
    } else {
        0x68
    }
}

/// A count raised by one, up to `cap`.
pub open spec fn bumped(count: usize, cap: usize) -> usize {
    if count < cap {
        (count + 1) as usize
    } else {
        count
    }
}

/// How much of `pattern` is matched after one more character.
pub open spec fn advanced(pattern: Seq<u8>, matched: usize, c: u8) -> usize {
    if matched < pattern.len() && pattern[matched as int] == c {
        (matched + 1) as usize
    } else {
        usize::MAX
    }
}

/// A text before its first character.
pub open spec fn text_start() -> Text {
    Text {
        depth: 0,
        deep: false,
        links: 0,
        word: 0,
        fresh: true,
        last: 0,
        before: 0,
        third: 0,
        with: 0,
        gap: false,
        seen: 0,
        armed: false,
        after: false,
        named: false,
        concluded: 0,
        declared: 0,
        in_files: 0,
    }
}

impl Text {
    /// Whether this character ends an operator.
    pub open spec fn ends_operator(self, c: u8) -> bool {
        ||| self.word == 1 && lower(c) == 0x72
        ||| self.word == 3 && lower(c) == 0x64
    }

    /// Whether an operator can start at this place: a word can, and no
    /// operand is due.
    pub open spec fn operator_place(self) -> bool {
        !is_name(self.last) && !self.fresh
    }

    /// Whether an operand can start at this place: at the start of the text
    /// or after what is no name, unless the word `with` stands before; or
    /// right after the letters of an operator.
    pub open spec fn operand_place(self) -> bool {
        ||| !is_name(self.last) && !self.gap
        ||| lower(self.before) == 0x6f && lower(self.last) == 0x72
        ||| lower(self.third) == 0x61 && lower(self.before) == 0x6e && lower(self.last) == 0x64
    }

    /// Whether the text is refused as a license expression: its brackets
    /// nest too deep, it strings too many operators together, or it ends
    /// within a reference to another document.
    pub open spec fn refused(self) -> bool {
        self.deep || self.links > MAX_LINKS || (self.after && self.named)
    }

    /// Whether the text is the name of a member with license expressions.
    pub open spec fn is_key(self) -> bool {
        ||| self.concluded == CONCLUDED.spec_bytes().len()
        ||| self.declared == DECLARED.spec_bytes().len()
        ||| self.in_files == IN_FILES.spec_bytes().len()
    }

    /// The text after one more character.
    pub open spec fn fed(self, c: u8) -> Text {
        let reference = REFERENCE.spec_bytes();
        let ends = self.ends_operator(c);
        let depth = if c == 0x28 {
            bumped(self.depth, (MAX_DEPTH + 1) as usize)
        } else if c == 0x29 && self.depth > 0 {
            (self.depth - 1) as usize
        } else {
            self.depth
        };
        let goes_on = 0 < self.seen < reference.len() && reference[self.seen as int] == c;
        let starts = !goes_on && reference.len() > 0 && reference[0] == c;
        let seen: usize = if goes_on {
            (self.seen + 1) as usize
        } else if starts {
            1
        } else {
            0
        };
        let armed = if goes_on {
            self.armed
        } else {
            starts && self.operand_place()
        };
        let whole = !self.after && seen == reference.len() && seen > 0;
        Text {
            depth,
            deep: self.deep || depth > MAX_DEPTH,
            links: if ends {
                bumped(self.links, (MAX_LINKS + 1) as usize)
            } else {
                self.links
            },
            word: if ends {
                0
            } else if self.word == 2 && lower(c) == 0x6e {
                3
            } else if self.operator_place() && lower(c) == 0x6f {
                1
            } else if self.operator_place() && lower(c) == 0x61 {
                2
            } else {
                0
            },
            fresh: if ends || c == 0x28 {
                true
            } else if is_name(c) || c == 0x29 {
                false
            } else {
                self.fresh
            },
            last: c,
            before: self.last,
            third: self.before,
            with: if is_space(c) {
                0
            } else if self.with < 4 && lower(c) == with_letter(self.with) {
                (self.with + 1) as u8
            } else if lower(c) == 0x77 {
                1
            } else {
                0
            },
            gap: is_space(c) && (self.gap || self.with == 4),
            seen: if self.after || whole {
                0
            } else {
                seen
            },
            armed: !self.after && !whole && armed,
            after: if self.after {
                is_name(c)
            } else {
                whole && armed
            },
            named: self.after && is_name(c),
            concluded: advanced(CONCLUDED.spec_bytes(), self.concluded, c),
            declared: advanced(DECLARED.spec_bytes(), self.declared, c),
            in_files: advanced(IN_FILES.spec_bytes(), self.in_files, c),
        }
    }
}

/// The character that a byte of a text stands for.
pub open spec fn plain(byte: u8) -> u8 {
    if byte < 0x80 {
        byte
    } else {
        OTHER
    }
}

/// The character that the escape with this letter stands for.
pub open spec fn unescaped(byte: u8) -> u8 {
    if byte == 0x22 || byte == 0x5c || byte == 0x2f {
        byte
    } else if byte == 0x62 {
        0x08
    } else if byte == 0x66 {
        0x0c
    } else if byte == 0x6e {
        0x0a
    } else if byte == 0x72 {
        0x0d
    } else if byte == 0x74 {
        0x09
    } else {
        OTHER
    }
}

/// The worth of a hex digit.
pub open spec fn hex(byte: u8) -> u32 {
    if 0x30 <= byte <= 0x39 {
        (byte - 0x30) as u32
    } else if 0x41 <= byte <= 0x46 {
        (byte - 0x37) as u32
    } else if 0x61 <= byte <= 0x66 {
        (byte - 0x57) as u32
    } else {
        0
    }
}

/// The code point of an escape after one more hex digit.
pub open spec fn coded(code: u32, byte: u8) -> u32 {
    if code < 0x1000 {
        (code * 16 + hex(byte)) as u32
    } else {
        0xffff
    }
}

/// The character with this code point.
pub open spec fn character(code: u32) -> u8 {
    if code < 0x80 {
        code as u8
    } else {
        OTHER
    }
}

/// The scan before the first byte.
pub open spec fn scan_start() -> Scan {
    Scan {
        tame: true,
        inside: false,
        checked: false,
        keyed: false,
        awaiting: false,
        listing: false,
        nesting: 0,
        escape: 0,
        code: 0,
        text: text_start(),
    }
}

impl Scan {
    /// The scan after one more byte between two texts. A quote opens a
    /// text, which is a license expression where the value of such a member
    /// is due, and anywhere inside a list that is such a value. A colon
    /// after the name of such a member makes its value due.
    pub open spec fn outside(self, byte: u8) -> Scan {
        if is_space(byte) {
            self
        } else if byte == 0x22 {
            Scan {
                inside: true,
                checked: self.awaiting || self.listing,
                keyed: false,
                awaiting: false,
                escape: 0,
                code: 0,
                text: text_start(),
                ..self
            }
        } else if byte == 0x3a {
            Scan { awaiting: self.keyed, keyed: false, ..self }
        } else if byte == 0x5b && self.awaiting {
            Scan { listing: true, nesting: 1, awaiting: false, keyed: false, ..self }
        } else if (byte == 0x5b || byte == 0x7b) && self.listing {
            Scan {
                nesting: bumped(self.nesting, usize::MAX),
                awaiting: false,
                keyed: false,
                ..self
            }
        } else if (byte == 0x5d || byte == 0x7d) && self.listing {
            Scan {
                listing: self.nesting > 1,
                nesting: if self.nesting > 0 {
                    (self.nesting - 1) as usize
                } else {
                    0
                },
                awaiting: false,
                keyed: false,
                ..self
            }
        } else {
            Scan { awaiting: false, keyed: false, ..self }
        }
    }

    /// The scan after one more byte of a text. A quote closes the text; a
    /// backslash starts an escape, which stands for one character; every
    /// other byte stands for itself.
    pub open spec fn within(self, byte: u8) -> Scan {
        if self.escape == 1 {
            if byte == 0x75 {
                Scan { escape: 2, code: 0, ..self }
            } else {
                Scan { escape: 0, text: self.text.fed(unescaped(byte)), ..self }
            }
        } else if self.escape >= 2 {
            if self.escape >= 5 {
                Scan {
                    escape: 0,
                    code: 0,
                    text: self.text.fed(character(coded(self.code, byte))),
                    ..self
                }
            } else {
                Scan { escape: (self.escape + 1) as u8, code: coded(self.code, byte), ..self }
            }
        } else if byte == 0x5c {
            Scan { escape: 1, ..self }
        } else if byte == 0x22 {
            Scan {
                tame: self.tame && !(self.checked && self.text.refused()),
                inside: false,
                checked: false,
                keyed: self.text.is_key(),
                ..self
            }
        } else {
            Scan { text: self.text.fed(plain(byte)), ..self }
        }
    }

    /// The scan after one more byte.
    pub open spec fn step(self, byte: u8) -> Scan {
        if self.inside {
            self.within(byte)
        } else {
            self.outside(byte)
        }
    }
}

/// The scan after all of `data`.
pub open spec fn scan_of(data: Seq<u8>) -> Scan
    decreases data.len(),
{
    if data.len() == 0 {
        scan_start()
    } else {
        scan_of(data.drop_last()).step(data.last())
    }
}

/// Whether the decoder can be let loose on a document: no license expression
/// in it is refused.
pub open spec fn is_tame(data: Seq<u8>) -> bool {
    scan_of(data).tame
}

fn name(c: u8) -> (yes: bool)
    ensures
        yes == is_name(c),
{
    (0x30 <= c && c <= 0x39) || (0x41 <= c && c <= 0x5a) || (0x61 <= c && c <= 0x7a) || c == 0x2d
        || c == 0x2e
}

fn space(c: u8) -> (yes: bool)
    ensures
        yes == is_space(c),
{
    c == 0x20 || c == 0x09 || c == 0x0a || c == 0x0d
}

fn small(c: u8) -> (low: u8)
    ensures
        low == lower(c),
{
    if 0x41 <= c && c <= 0x5a {
        c + 0x20
    } else {
        c
    }
}

fn letter_of_with(place: u8) -> (letter: u8)
    ensures
        letter == with_letter(place),
{
    if place == 0 {
        0x77
    } else if place == 1 {
        0x69
    } else if place == 2 {
        0x74
    } else {
        0x68
    }
}

fn bump(count: usize, cap: usize) -> (raised: usize)
    ensures
        raised == bumped(count, cap),
{
    if count < cap {
        count + 1
    } else {
        count
    }
}

fn advance(pattern: &[u8], matched: usize, c: u8) -> (next: usize)
    ensures
        next == advanced(pattern@, matched, c),
{
    if matched < pattern.len() && pattern[matched] == c {
        matched + 1
    } else {
        usize::MAX
    }
}

fn feed(text: Text, c: u8) -> (fed: Text)
    ensures
        fed == text.fed(c),
{
    let reference = REFERENCE.as_bytes();
    let low = small(c);
    let ends = (text.word == 1 && low == 0x72) || (text.word == 3 && low == 0x64);
    let operator_place = !name(text.last) && !text.fresh;
    let operand_place = (!name(text.last) && !text.gap) || (small(text.before) == 0x6f && small(
        text.last,
    ) == 0x72) || (small(text.third) == 0x61 && small(text.before) == 0x6e && small(text.last)
        == 0x64);
    let depth = if c == 0x28 {
        bump(text.depth, MAX_DEPTH + 1)
    } else if c == 0x29 && text.depth > 0 {
        text.depth - 1
    } else {
        text.depth
    };
    let goes_on = 0 < text.seen && text.seen < reference.len() && reference[text.seen] == c;
    let starts = !goes_on && reference.len() > 0 && reference[0] == c;
    let seen: usize = if goes_on {
        text.seen + 1
    } else if starts {
        1
    } else {
        0
    };
    let armed = if goes_on {
        text.armed
    } else {
        starts && operand_place
    };
    let whole = !text.after && seen == reference.len() && seen > 0;
    Text {
        depth,
        deep: text.deep || depth > MAX_DEPTH,
        links: if ends {
            bump(text.links, MAX_LINKS + 1)
        } else {
            text.links
        },
        word: if ends {
            0
        } else if text.word == 2 && low == 0x6e {
            3
        } else if operator_place && low == 0x6f {
            1
        } else if operator_place && low == 0x61 {
            2
        } else {
            0
        },
        fresh: if ends || c == 0x28 {
            true
        } else if name(c) || c == 0x29 {
            false
        } else {
            text.fresh
        },
        last: c,
        before: text.last,
        third: text.before,
        with: if space(c) {
            0
        } else if text.with < 4 && low == letter_of_with(text.with) {
            text.with + 1
        } else if low == 0x77 {
            1
        } else {
            0
        },
        gap: space(c) && (text.gap || text.with == 4),
        seen: if text.after || whole {
            0
        } else {
            seen
        },
        armed: !text.after && !whole && armed,
        after: if text.after {
            name(c)
        } else {
            whole && armed
        },
        named: text.after && name(c),
        concluded: advance(CONCLUDED.as_bytes(), text.concluded, c),
        declared: advance(DECLARED.as_bytes(), text.declared, c),
        in_files: advance(IN_FILES.as_bytes(), text.in_files, c),
    }
}

fn character_of(byte: u8) -> (c: u8)
    ensures
        c == plain(byte),
{
    if byte < 0x80 {
        byte
    } else {
        OTHER
    }
}

fn unescape(byte: u8) -> (c: u8)
    ensures
        c == unescaped(byte),
{
    if byte == 0x22 || byte == 0x5c || byte == 0x2f {
        byte
    } else if byte == 0x62 {
        0x08
    } else if byte == 0x66 {
        0x0c
    } else if byte == 0x6e {
        0x0a
    } else if byte == 0x72 {
        0x0d
    } else if byte == 0x74 {
        0x09
    } else {
        OTHER
    }
}

fn code_after(code: u32, byte: u8) -> (next: u32)
    ensures
        next == coded(code, byte),
{
    let digit: u8 = if 0x30 <= byte && byte <= 0x39 {
        byte - 0x30
    } else if 0x41 <= byte && byte <= 0x46 {
        byte - 0x37
    } else if 0x61 <= byte && byte <= 0x66 {
        byte - 0x57
    } else {
        0
    };
    if code < 0x1000 {
        code * 16 + digit as u32
    } else {
        0xffff
    }
}

fn character_coded(code: u32) -> (c: u8)
    ensures
        c == character(code),
{
    if code < 0x80 {
        code as u8
    } else {
        OTHER
    }
}

fn step_outside(scan: Scan, byte: u8) -> (next: Scan)
    ensures
        next == scan.outside(byte),
{
    if space(byte) {
        scan
    } else if byte == 0x22 {
        Scan {
            inside: true,
            checked: scan.awaiting || scan.listing,
            keyed: false,
            awaiting: false,
            escape: 0,
            code: 0,
            text: Text {
                depth: 0,
                deep: false,
                links: 0,
                word: 0,
                fresh: true,
                last: 0,
                before: 0,
                third: 0,
                with: 0,
                gap: false,
                seen: 0,
                armed: false,
                after: false,
                named: false,
                concluded: 0,
                declared: 0,
                in_files: 0,
            },
            ..scan
        }
    } else if byte == 0x3a {
        Scan { awaiting: scan.keyed, keyed: false, ..scan }
    } else if byte == 0x5b && scan.awaiting {
        Scan { listing: true, nesting: 1, awaiting: false, keyed: false, ..scan }
    } else if (byte == 0x5b || byte == 0x7b) && scan.listing {
        Scan { nesting: bump(scan.nesting, usize::MAX), awaiting: false, keyed: false, ..scan }
    } else if (byte == 0x5d || byte == 0x7d) && scan.listing {
        Scan {
            listing: scan.nesting > 1,
            nesting: if scan.nesting > 0 {
                scan.nesting - 1
            } else {
                0
            },
            awaiting: false,
            keyed: false,
            ..scan
        }
    } else {
        Scan { awaiting: false, keyed: false, ..scan }
    }
}

fn step_within(scan: Scan, byte: u8) -> (next: Scan)
    ensures
        next == scan.within(byte),
{
    if scan.escape == 1 {
        if byte == 0x75 {
            Scan { escape: 2, code: 0, ..scan }
        } else {
            Scan { escape: 0, text: feed(scan.text, unescape(byte)), ..scan }
        }
    } else if scan.escape >= 2 {
        if scan.escape >= 5 {
            Scan {
                escape: 0,
                code: 0,
                text: feed(scan.text, character_coded(code_after(scan.code, byte))),
                ..scan
            }
        } else {
            Scan { escape: scan.escape + 1, code: code_after(scan.code, byte), ..scan }
        }
    } else if byte == 0x5c {
        Scan { escape: 1, ..scan }
    } else if byte == 0x22 {
        let refused = scan.text.deep || scan.text.links > MAX_LINKS || (scan.text.after
            && scan.text.named);
        let key = scan.text.concluded == CONCLUDED.as_bytes().len() || scan.text.declared
            == DECLARED.as_bytes().len() || scan.text.in_files == IN_FILES.as_bytes().len();
        Scan {
            tame: scan.tame && !(scan.checked && refused),
            inside: false,
            checked: false,
            keyed: key,
            ..scan
        }
    } else {
        Scan { text: feed(scan.text, character_of(byte)), ..scan }
    }
}

/// Whether the decoder can be let loose on `data`.
pub fn tame(data: &[u8]) -> (tame: bool)
    ensures
        tame == is_tame(data@),
{
    let mut scan = Scan {
        tame: true,
        inside: false,
        checked: false,
        keyed: false,
        awaiting: false,
        listing: false,
        nesting: 0,
        escape: 0,
        code: 0,
        text: feed_start(),
    };
    let mut i: usize = 0;
    while i < data.len()
        invariant
            i <= data.len(),
            scan == scan_of(data@.take(i as int)),
        decreases data.len() - i,
    {
        proof {
            assert(data@.take(i + 1).drop_last() =~= data@.take(i as int));
            assert(data@.take(i + 1).last() == data@[i as int]);
        }
        scan = if scan.inside {
            step_within(scan, data[i])
        } else {
            step_outside(scan, data[i])
        };
        i += 1;
    }
    assert(data@.take(data.len() as int) =~= data@);
    scan.tame
}

fn feed_start() -> (text: Text)
    ensures
        text == text_start(),
{
    Text {
        depth: 0,
        deep: false,
        links: 0,
        word: 0,
        fresh: true,
        last: 0,
        before: 0,
        third: 0,
        with: 0,
        gap: false,
        seen: 0,
        armed: false,
        after: false,
        named: false,
        concluded: 0,
        declared: 0,
        in_files: 0,
    }
}

} // verus!
