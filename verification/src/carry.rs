//! Decides when the unprocessed tail carried between stream chunks may have
//! become processable, scanning each appended byte once.

use vstd::prelude::*;
use crate::chars::{is_whitespace, spec_is_whitespace, is_ascii_alnum, spec_is_ascii_alnum,
    is_ascii_digit, spec_is_ascii_digit, is_ascii_hexdigit, spec_is_ascii_hexdigit};
use crate::entities::MAX_ENTITY_NAME_LENGTH;
use crate::digits::{digits_of, lemma_digits_len, pow_of, push_digits};
use crate::chars::{to_lower, spec_to_lower};

verus! {

/// What the carried tail is known to start with.
#[derive(Clone, Copy, PartialEq, Eq, Structural)]
pub enum CarryState {
    Prefix,
    TagName { closing: bool },
    Attributes { state: u8, quote: u8 },
    EndTagTail { quote: u8 },
    Comment { state: u8 },
    Cdata { matched: u8 },
    BogusComment,
    NamedEntity,
    NumericEntity { hex: bool },
    EntityLookahead { length: usize },
    GfmText,
}

/// `b` starts with `p`.
pub open spec fn starts_with(b: Seq<u8>, p: Seq<u8>) -> bool {
    p.len() <= b.len() && b.subrange(0, p.len() as int) == p
}

pub open spec fn comment_open() -> Seq<u8> {
    seq![60u8, 33, 45, 45]
}

pub open spec fn cdata_open() -> Seq<u8> {
    seq![60u8, 33, 91, 67, 68, 65, 84, 65, 91]
}

/// How the first bytes classify the tail: `Err(n)` when they do not decide
/// yet (the scanner stops with `n` bytes scanned), `Ok((state, n))` when they
/// do (scanning continues in `state` after `n` bytes).
pub open spec fn prefix_decision(b: Seq<u8>) -> Result<(CarryState, int), int> {
    if b[0] == 38 {
        if b.len() > 1 && b[1] == 35 {
            if b.len() == 2 {
                Err(2)
            } else {
                let hex = b[2] == 120 || b[2] == 88;
                Ok((CarryState::NumericEntity { hex }, if hex { 3int } else { 2int }))
            }
        } else {
            Ok((CarryState::NamedEntity, 1))
        }
    } else if b[0] != 60 {
        Ok((CarryState::GfmText, 0))
    } else if b.len() == 1 {
        Err(1)
    } else if starts_with(b, comment_open()) {
        Ok((CarryState::Comment { state: 0 }, 4))
    } else if starts_with(b, cdata_open()) {
        Ok((CarryState::Cdata { matched: 0 }, 9))
    } else if starts_with(comment_open(), b) || starts_with(cdata_open(), b) {
        Err(b.len() as int)
    } else if b[1] == 33 || b[1] == 63 {
        Ok((CarryState::BogusComment, 2))
    } else if b[1] == 47 {
        Ok((CarryState::TagName { closing: true }, 2))
    } else {
        Ok((CarryState::TagName { closing: false }, 1))
    }
}

pub open spec fn count_byte(b: Seq<u8>, from: int, x: u8) -> int
    decreases b.len() - from,
{
    if from < 0 || from >= b.len() {
        0
    } else {
        (if b[from] == x { 1int } else { 0int }) + count_byte(b, from + 1, x)
    }
}

pub open spec fn has_other_than_dash_space(b: Seq<u8>, from: int) -> bool {
    exists|k: int| from <= k < b.len() && !(b[k] == 45 || b[k] == 32 || b[k] == 9)
}

pub open spec fn has_byte(b: Seq<u8>, x: u8) -> bool {
    exists|k: int| 0 <= k < b.len() && b[k] == x
}

pub open spec fn run_of(b: Seq<u8>, from: int, x: u8) -> int
    decreases b.len() - from,
{
    if 0 <= from < b.len() && b[from] == x { 1 + run_of(b, from + 1, x) } else { 0 }
}

/// Leading spaces, at most three.
pub open spec fn indent_of(b: Seq<u8>) -> int {
    if b.len() > 0 && b[0] == 32 {
        if b.len() > 1 && b[1] == 32 {
            if b.len() > 2 && b[2] == 32 { 3 } else { 2 }
        } else {
            1
        }
    } else {
        0
    }
}

/// Decimal digits from `from`, at most nine.
pub open spec fn digits_upto9(b: Seq<u8>, from: int, k: int) -> int
    decreases 9 - k,
{
    if k < 9 && from + k < b.len() && spec_is_ascii_digit(b[from + k]) {
        digits_upto9(b, from, k + 1)
    } else {
        k
    }
}

/// Whether text carried at a chunk end can no longer turn into a Markdown
/// block marker (ATX heading, list item, thematic break) once more text
/// arrives: it is long, holds a `<`, or its marker is already decided.
pub open spec fn gfm_text_complete(b: Seq<u8>) -> bool {
    if b.len() >= 64 || has_byte(b, 60) {
        true
    } else {
        let index = indent_of(b);
        if index >= b.len() {
            false
        } else {
            let marker = b[index];
            if marker == 35 {
                let end = index + run_of(b, index, 35);
                end < b.len() || end - index > 6
            } else if marker == 43 {
                index + 1 < b.len()
            } else if marker == 45 {
                count_byte(b, index, 45) >= 3 || has_other_than_dash_space(b, index)
            } else if spec_is_ascii_digit(marker) {
                let end = index + digits_upto9(b, index, 0);
                if end == b.len() {
                    false
                } else if !(b[end] == 46 || b[end] == 41) {
                    true
                } else {
                    end + 1 < b.len()
                }
            } else {
                false
            }
        }
    }
}

/// One scanned byte in a state other than `Prefix` and `GfmText`:
/// `Ok(true)` when the construct is complete, otherwise the next state.
pub open spec fn carry_step(st: CarryState, byte: u8, scanned: int) -> Result<CarryState, bool> {
    match st {
        CarryState::TagName { closing } => {
            if byte == 62 {
                Err(true)
            } else if byte == 47 || spec_is_whitespace(byte) {
                Ok(if closing { CarryState::EndTagTail { quote: 0 } } else { CarryState::Attributes { state: 0, quote: 0 } })
            } else {
                Ok(st)
            }
        },
        CarryState::Attributes { state, quote } => {
            if byte == 62 && state != 4 {
                Err(true)
            } else {
                let ws = spec_is_whitespace(byte);
                let (next, q) = if state == 0 && !ws { (1u8, quote) }
                    else if state == 1 && ws { (2u8, quote) }
                    else if state == 1 && byte == 61 { (3u8, quote) }
                    else if state == 2 && byte == 61 { (3u8, quote) }
                    else if state == 2 && !ws { (1u8, quote) }
                    else if state == 3 && (byte == 39 || byte == 34) { (4u8, byte) }
                    else if state == 3 && !ws { (6u8, quote) }
                    else if state == 4 && byte == quote { (5u8, quote) }
                    else if state == 5 && ws { (0u8, quote) }
                    else if state == 5 { (1u8, quote) }
                    else if state == 6 && ws { (0u8, quote) }
                    else { (state, quote) };
                Ok(CarryState::Attributes { state: next, quote: q })
            }
        },
        CarryState::EndTagTail { quote } => {
            if quote != 0 {
                Ok(CarryState::EndTagTail { quote: if byte == quote { 0 } else { quote } })
            } else if byte == 39 || byte == 34 {
                Ok(CarryState::EndTagTail { quote: byte })
            } else if byte == 62 {
                Err(true)
            } else {
                Ok(st)
            }
        },
        CarryState::Comment { state } => {
            if (state == 0 || state == 1 || state == 4 || state == 5) && byte == 62 {
                Err(true)
            } else {
                let next: u8 = if state == 0 { if byte == 45 { 1 } else { 2 } }
                    else if state == 1 { if byte == 45 { 4 } else { 2 } }
                    else if state == 2 { if byte == 45 { 3 } else { 2 } }
                    else if state == 3 { if byte == 45 { 4 } else { 2 } }
                    else if state == 4 { if byte == 33 { 5 } else if byte == 45 { 4 } else { 2 } }
                    else if state == 5 { if byte == 45 { 3 } else { 2 } }
                    else { state };
                Ok(CarryState::Comment { state: next })
            }
        },
        CarryState::Cdata { matched } => {
            if matched == 2 && byte == 62 {
                Err(true)
            } else if byte == 93 {
                Ok(CarryState::Cdata { matched: if matched == 0 { 1 } else if matched == 1 { 2 } else if matched == 2 { 2 } else { 1 } })
            } else {
                Ok(CarryState::Cdata { matched: 0 })
            }
        },
        CarryState::BogusComment => {
            if byte == 62 { Err(true) } else { Ok(st) }
        },
        CarryState::NamedEntity => {
            if byte == 59 {
                Ok(CarryState::EntityLookahead { length: 0 })
            } else if !spec_is_ascii_alnum(byte) || scanned > MAX_ENTITY_NAME_LENGTH {
                Err(true)
            } else {
                Ok(st)
            }
        },
        CarryState::NumericEntity { hex } => {
            if byte == 59 {
                Ok(CarryState::EntityLookahead { length: 0 })
            } else if !(spec_is_ascii_digit(byte) || (hex && spec_is_ascii_hexdigit(byte))) {
                Err(true)
            } else {
                Ok(st)
            }
        },
        CarryState::EntityLookahead { length } => {
            if byte == 59 {
                Err(true)
            } else if !(spec_is_ascii_alnum(byte) || (length == 0 && byte == 35)) {
                Err(true)
            } else if length + 1 > MAX_ENTITY_NAME_LENGTH + 2 {
                Err(true)
            } else {
                Ok(CarryState::EntityLookahead { length: (length + 1) as usize })
            }
        },
        _ => Ok(st),
    }
}

pub open spec fn carry_measure(b: Seq<u8>, st: CarryState, scanned: int) -> int {
    if st is Prefix { b.len() + 1int } else { b.len() - scanned }
}

/// The scanner run over `b` from `(st, scanned)`: whether the tail became
/// processable, and the state and scan position it stops in.
pub open spec fn advance_spec(b: Seq<u8>, st: CarryState, scanned: int) -> (bool, CarryState, int)
    decreases carry_measure(b, st, scanned),
{
    if scanned < 0 || scanned >= b.len() {
        (false, st, scanned)
    } else if st is Prefix {
        match prefix_decision(b) {
            Err(n) => (false, st, n),
            Ok((next, n)) => {
                if next is GfmText {
                    (gfm_text_complete(b), next, n)
                } else if 0 <= n <= b.len() {
                    advance_spec(b, next, n)
                } else {
                    (false, next, n)
                }
            },
        }
    } else if st is GfmText {
        (gfm_text_complete(b), st, scanned)
    } else {
        match carry_step(st, b[scanned], scanned) {
            Err(done) => (done, st, scanned + 1),
            Ok(next) => advance_spec(b, next, scanned + 1),
        }
    }
}

pub struct CarryScanner {
    pub state: CarryState,
    pub scanned: usize,
}

fn bytes_start_with(b: &[u8], p: &[u8]) -> (r: bool)
    ensures
        r == starts_with(b@, p@),
{
    if p.len() > b.len() {
        return false;
    }
    let mut i: usize = 0;
    while i < p.len()
        invariant
            i <= p@.len() <= b@.len(),
            forall|j: int| 0 <= j < i ==> b@[j] == p@[j],
        decreases p@.len() - i,
    {
        if b[i] != p[i] {
            assert(b@.subrange(0, p@.len() as int)[i as int] != p@[i as int]);
            return false;
        }
        i = i + 1;
    }
    assert(b@.subrange(0, p@.len() as int) =~= p@);
    true
}

fn decide_prefix(b: &[u8]) -> (r: Result<(CarryState, usize), usize>)
    requires
        b@.len() > 0,
    ensures
        match r {
            Ok((st, n)) => prefix_decision(b@) == Ok::<(CarryState, int), int>((st, n as int)) && n <= b@.len(),
            Err(n) => prefix_decision(b@) == Err::<(CarryState, int), int>(n as int) && n <= b@.len(),
        },
{
    let comment: [u8; 4] = [60, 33, 45, 45];
    let cdata: [u8; 9] = [60, 33, 91, 67, 68, 65, 84, 65, 91];
    assert(comment@ == comment_open());
    assert(cdata@ == cdata_open());
    if b[0] == 38 {
        if b.len() > 1 && b[1] == 35 {
            if b.len() == 2 {
                Err(2)
            } else {
                let hex = b[2] == 120 || b[2] == 88;
                Ok((CarryState::NumericEntity { hex }, if hex { 3 } else { 2 }))
            }
        } else {
            Ok((CarryState::NamedEntity, 1))
        }
    } else if b[0] != 60 {
        Ok((CarryState::GfmText, 0))
    } else if b.len() == 1 {
        Err(1)
    } else if bytes_start_with(b, comment.as_slice()) {
        Ok((CarryState::Comment { state: 0 }, 4))
    } else if bytes_start_with(b, cdata.as_slice()) {
        Ok((CarryState::Cdata { matched: 0 }, 9))
    } else if bytes_start_with(comment.as_slice(), b) || bytes_start_with(cdata.as_slice(), b) {
        Err(b.len())
    } else if b[1] == 33 || b[1] == 63 {
        Ok((CarryState::BogusComment, 2))
    } else if b[1] == 47 {
        Ok((CarryState::TagName { closing: true }, 2))
    } else {
        Ok((CarryState::TagName { closing: false }, 1))
    }
}

fn step(st: CarryState, byte: u8, scanned: usize) -> (r: Result<CarryState, bool>)
    ensures
        r == carry_step(st, byte, scanned as int),
{
    match st {
        CarryState::TagName { closing } => {
            if byte == 62 {
                Err(true)
            } else if byte == 47 || is_whitespace(byte) {
                Ok(if closing { CarryState::EndTagTail { quote: 0 } } else { CarryState::Attributes { state: 0, quote: 0 } })
            } else {
                Ok(st)
            }
        },
        CarryState::Attributes { state, quote } => {
            if byte == 62 && state != 4 {
                Err(true)
            } else {
                let ws = is_whitespace(byte);
                let (next, q) = if state == 0 && !ws { (1u8, quote) }
                    else if state == 1 && ws { (2u8, quote) }
                    else if state == 1 && byte == 61 { (3u8, quote) }
                    else if state == 2 && byte == 61 { (3u8, quote) }
                    else if state == 2 && !ws { (1u8, quote) }
                    else if state == 3 && (byte == 39 || byte == 34) { (4u8, byte) }
                    else if state == 3 && !ws { (6u8, quote) }
                    else if state == 4 && byte == quote { (5u8, quote) }
                    else if state == 5 && ws { (0u8, quote) }
                    else if state == 5 { (1u8, quote) }
                    else if state == 6 && ws { (0u8, quote) }
                    else { (state, quote) };
                Ok(CarryState::Attributes { state: next, quote: q })
            }
        },
        CarryState::EndTagTail { quote } => {
            if quote != 0 {
                Ok(CarryState::EndTagTail { quote: if byte == quote { 0 } else { quote } })
            } else if byte == 39 || byte == 34 {
                Ok(CarryState::EndTagTail { quote: byte })
            } else if byte == 62 {
                Err(true)
            } else {
                Ok(st)
            }
        },
        CarryState::Comment { state } => {
            if (state == 0 || state == 1 || state == 4 || state == 5) && byte == 62 {
                Err(true)
            } else {
                let next: u8 = if state == 0 { if byte == 45 { 1 } else { 2 } }
                    else if state == 1 { if byte == 45 { 4 } else { 2 } }
                    else if state == 2 { if byte == 45 { 3 } else { 2 } }
                    else if state == 3 { if byte == 45 { 4 } else { 2 } }
                    else if state == 4 { if byte == 33 { 5 } else if byte == 45 { 4 } else { 2 } }
                    else if state == 5 { if byte == 45 { 3 } else { 2 } }
                    else { state };
                Ok(CarryState::Comment { state: next })
            }
        },
        CarryState::Cdata { matched } => {
            if matched == 2 && byte == 62 {
                Err(true)
            } else if byte == 93 {
                Ok(CarryState::Cdata { matched: if matched == 0 { 1 } else if matched == 1 { 2 } else if matched == 2 { 2 } else { 1 } })
            } else {
                Ok(CarryState::Cdata { matched: 0 })
            }
        },
        CarryState::BogusComment => {
            if byte == 62 { Err(true) } else { Ok(st) }
        },
        CarryState::NamedEntity => {
            if byte == 59 {
                Ok(CarryState::EntityLookahead { length: 0 })
            } else if !is_ascii_alnum(byte) || scanned > MAX_ENTITY_NAME_LENGTH {
                Err(true)
            } else {
                Ok(st)
            }
        },
        CarryState::NumericEntity { hex } => {
            if byte == 59 {
                Ok(CarryState::EntityLookahead { length: 0 })
            } else if !(is_ascii_digit(byte) || (hex && is_ascii_hexdigit(byte))) {
                Err(true)
            } else {
                Ok(st)
            }
        },
        CarryState::EntityLookahead { length } => {
            if byte == 59 {
                Err(true)
            } else if !(is_ascii_alnum(byte) || (length == 0 && byte == 35)) {
                Err(true)
            } else if length >= MAX_ENTITY_NAME_LENGTH + 2 {
                Err(true)
            } else {
                Ok(CarryState::EntityLookahead { length: length + 1 })
            }
        },
        _ => Ok(st),
    }
}

fn has_lt(b: &[u8]) -> (r: bool)
    ensures
        r == has_byte(b@, 60),
{
    let mut i: usize = 0;
    while i < b.len()
        invariant
            i <= b@.len(),
            forall|k: int| 0 <= k < i ==> b@[k] != 60,
        decreases b@.len() - i,
    {
        if b[i] == 60 {
            return true;
        }
        i = i + 1;
    }
    false
}

/// Whether buffered plain text is settled (see the spec function of the same name).
pub fn text_complete(b: &[u8]) -> (r: bool)
    ensures
        r == gfm_text_complete(b@),
{
    let len = b.len();
    if len >= 64 || has_lt(b) {
        return true;
    }
    let mut index: usize = 0;
    while index < len && b[index] == 32 && index < 3
        invariant
            index <= 3,
            index <= len,
            len == b@.len(),
            forall|k: int| 0 <= k < index ==> b@[k] == 32,
        decreases 3 - index,
    {
        index = index + 1;
    }
    assert(index == indent_of(b@));
    if index >= len {
        return false;
    }
    let marker = b[index];
    if marker == 35 {
        let start = index;
        let mut j = index;
        while j < len && b[j] == 35
            invariant
                start <= j <= len,
                len == b@.len(),
                run_of(b@, start as int, 35) == (j - start) + run_of(b@, j as int, 35),
            decreases len - j,
        {
            j = j + 1;
        }
        j < len || j - start > 6
    } else if marker == 43 {
        index + 1 < len
    } else if marker == 45 {
        let mut count: usize = 0;
        let mut other = false;
        let mut j = index;
        while j < len
            invariant
                index <= j <= len,
                len == b@.len(),
                count <= j - index,
                count_byte(b@, index as int, 45) == count + count_byte(b@, j as int, 45),
                other == (exists|k: int| index <= k < j && !(b@[k] == 45 || b@[k] == 32 || b@[k] == 9)),
            decreases len - j,
        {
            if b[j] == 45 {
                count = count + 1;
            } else if !(b[j] == 32 || b[j] == 9) {
                other = true;
            }
            j = j + 1;
        }
        count >= 3 || other
    } else if is_ascii_digit(marker) {
        let mut k: usize = 0;
        while k < 9 && index + k < len && is_ascii_digit(b[index + k])
            invariant
                k <= 9,
                index < len,
                index + k <= len,
                len == b@.len(),
                digits_upto9(b@, index as int, 0) == digits_upto9(b@, index as int, k as int),
            decreases 9 - k,
        {
            k = k + 1;
        }
        let end = index + k;
        if end == len {
            false
        } else if !(b[end] == 46 || b[end] == 41) {
            true
        } else {
            end + 1 < len
        }
    } else {
        false
    }
}

/// Digit value used when compacting a numeric reference; a byte that is not
/// a digit (the scanner never leaves one in this position) counts as 0.
pub open spec fn lenient_digit(c: u8) -> nat {
    if spec_is_ascii_digit(c) {
        (c - 48) as nat
    } else if 97 <= spec_to_lower(c) <= 102 {
        (spec_to_lower(c) - 87) as nat
    } else {
        0
    }
}

/// Value of `s[from..from + k]` read in base 10 or 16, saturating at 0x110000.
pub open spec fn lenient_value(s: Seq<u8>, from: int, k: int, hex: bool) -> nat
    decreases k,
{
    if k <= 0 {
        0
    } else {
        let v = lenient_value(s, from, k - 1, hex) * (if hex { 16nat } else { 10nat }) + lenient_digit(s[from + k - 1]);
        if v > 0x110000 { 0x110000 } else { v }
    }
}

/// `&#` (and `x` for a hexadecimal reference) followed by the digits of `v`.
pub open spec fn numeric_reference(v: nat, hex: bool) -> Seq<u8> {
    (if hex { seq![38u8, 35, 120] } else { seq![38u8, 35] }) + digits_of(v, if hex { 16nat } else { 10nat })
}

impl CarryScanner {
    pub fn new() -> (r: Self)
        ensures
            r.state == CarryState::Prefix,
            r.scanned == 0,
    {
        CarryScanner { state: CarryState::Prefix, scanned: 0 }
    }

    /// Scans the bytes of `carry` not scanned yet; true once the carried tail
    /// may have become processable.
    pub fn advance(&mut self, carry: &[u8]) -> (r: bool)
        ensures
            (r, final(self).state, final(self).scanned as int) == advance_spec(carry@, old(self).state, old(self).scanned as int),
            !r && !(final(self).state is GfmText) ==> final(self).scanned >= carry@.len() || old(self).scanned > carry@.len(),
    {
        let len = carry.len();
        let ghost st0 = self.state;
        let ghost sc0 = self.scanned as int;
        while self.scanned < len
            invariant
                len == carry@.len(),
                st0 == old(self).state,
                sc0 == old(self).scanned as int,
                advance_spec(carry@, st0, sc0) == advance_spec(carry@, self.state, self.scanned as int),
                sc0 > carry@.len() ==> self.scanned == sc0,
            decreases carry_measure(carry@, self.state, self.scanned as int),
        {
            match self.state {
                CarryState::Prefix => {
                    let ghost sc = self.scanned as int;
                    match decide_prefix(carry) {
                        Err(n) => {
                            assert(advance_spec(carry@, CarryState::Prefix, sc) == (false, CarryState::Prefix, n as int));
                            self.scanned = n;
                            return false;
                        },
                        Ok((next, n)) => {
                            if next == CarryState::GfmText {
                                assert(advance_spec(carry@, CarryState::Prefix, sc) == (gfm_text_complete(carry@), next, n as int));
                                self.state = next;
                                self.scanned = n;
                                return text_complete(carry);
                            }
                            self.state = next;
                            self.scanned = n;
                        },
                    }
                },
                CarryState::GfmText => {
                    return text_complete(carry);
                },
                _ => {
                    let byte = carry[self.scanned];
                    let sc = self.scanned;
                    match step(self.state, byte, sc) {
                        Err(done) => {
                            self.scanned = sc + 1;
                            return done;
                        },
                        Ok(next) => {
                            self.state = next;
                            self.scanned = sc + 1;
                        },
                    }
                },
            }
        }
        false
    }

    /// Rewrites an overlong numeric reference carried at a chunk end to the
    /// short form of the value it already saturated to, so that a reference
    /// with endless digits keeps the carry small.
    pub fn compact_numeric(&mut self, carry: &mut Vec<u8>)
        ensures
            match old(self).state {
                CarryState::NumericEntity { hex } => {
                    let ds: int = if hex { 3 } else { 2 };
                    if old(carry)@.len() > ds + 16 {
                        let v = lenient_value(old(carry)@, ds, old(carry)@.len() - ds, hex);
                        &&& final(carry)@ == numeric_reference(v, hex)
                        &&& final(carry)@.len() <= 10
                        &&& (final(self).state, final(self).scanned as int) == ({
                            let r = advance_spec(final(carry)@, CarryState::Prefix, 0);
                            (r.1, r.2)
                        })
                    } else {
                        final(carry)@ == old(carry)@ && *final(self) == *old(self)
                    }
                },
                _ => final(carry)@ == old(carry)@ && *final(self) == *old(self),
            },
    {
        let hex = match self.state {
            CarryState::NumericEntity { hex } => hex,
            _ => return,
        };
        let digit_start: usize = if hex { 3 } else { 2 };
        if carry.len() <= digit_start + 16 {
            return;
        }
        let radix: u32 = if hex { 16 } else { 10 };
        let len = carry.len();
        let mut value: u32 = 0;
        let mut j = digit_start;
        while j < len
            invariant
                digit_start <= j <= len,
                len == carry@.len(),
                digit_start == (if hex { 3usize } else { 2usize }),
                radix == (if hex { 16u32 } else { 10u32 }),
                value == lenient_value(carry@, digit_start as int, j - digit_start, hex),
                value <= 0x110000,
            decreases len - j,
        {
            let byte = carry[j];
            let digit: u32 = if is_ascii_digit(byte) {
                (byte - 48) as u32
            } else {
                let l = to_lower(byte);
                if 97 <= l && l <= 102 { (l - 87) as u32 } else { 0 }
            };
            let w = value * radix + digit;
            value = if w > 0x110000 { 0x110000 } else { w };
            j = j + 1;
        }
        let mut out: Vec<u8> = Vec::new();
        out.push(38);
        out.push(35);
        if hex {
            out.push(120);
        }
        let ghost head = out@;
        push_digits(&mut out, value, hex);
        proof {
            assert(out@ =~= numeric_reference(value as nat, hex));
            if hex {
                reveal_with_fuel(pow_of, 7);
                lemma_digits_len(value as nat, 16, 6);
            } else {
                reveal_with_fuel(pow_of, 8);
                lemma_digits_len(value as nat, 10, 7);
            }
        }
        *carry = out;
        self.reset(carry.as_slice());
    }

    /// Restarts the scan over a new carried tail.
    pub fn reset(&mut self, carry: &[u8])
        ensures
            (final(self).state, final(self).scanned as int) == ({
                let r = advance_spec(carry@, CarryState::Prefix, 0);
                (r.1, r.2)
            }),
    {
        self.state = CarryState::Prefix;
        self.scanned = 0;
        let _ = self.advance(carry);
    }
}

} // verus!
