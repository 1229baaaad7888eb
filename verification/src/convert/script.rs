//! Finding the end of script data, with the HTML tokenizer's escape states.

use vstd::prelude::*;
use crate::chars::{spec_is_whitespace, is_whitespace};

verus! {

pub const SCRIPT_DATA: u8 = 0;
pub const SCRIPT_DATA_ESCAPED: u8 = 1;
pub const SCRIPT_DATA_ESCAPED_DASH: u8 = 2;
pub const SCRIPT_DATA_ESCAPED_DASH_DASH: u8 = 3;
pub const SCRIPT_DATA_DOUBLE_ESCAPED: u8 = 4;
pub const SCRIPT_DATA_DOUBLE_ESCAPED_DASH: u8 = 5;
pub const SCRIPT_DATA_DOUBLE_ESCAPED_DASH_DASH: u8 = 6;

/// The letters of `script`.
pub open spec fn script_letter(k: int) -> u8 {
    if k == 0 { 115 } else if k == 1 { 99 } else if k == 2 { 114 } else if k == 3 { 105 } else if k == 4 { 112 } else { 116 }
}

/// Whether `b[from..from + 6]` spells `script`, ASCII case-insensitively.
pub open spec fn spells_script(b: Seq<u8>, from: int) -> bool {
    from + 6 <= b.len() && forall|k: int| 0 <= k < 6 ==> (#[trigger] b[from + k] | 32) == script_letter(k)
}

/// Whether a byte may follow a tag name.
pub open spec fn ends_tag_name(c: u8) -> bool {
    c == 62 || c == 47 || spec_is_whitespace(c)
}

/// Outcome of matching `script` at a position.
pub enum SequenceEnd {
    /// `script` and a delimiter; the index after the delimiter.
    Match(usize),
    NoMatch,
    /// The bytes end before the answer is known.
    Incomplete,
}

fn letter(k: usize) -> (r: u8)
    requires
        k < 6,
    ensures
        r == script_letter(k as int),
{
    if k == 0 { 115 } else if k == 1 { 99 } else if k == 2 { 114 } else if k == 3 { 105 } else if k == 4 { 112 } else { 116 }
}

/// Matches `script` followed by `>`, `/` or whitespace at `name_start`.
pub fn script_sequence_end(bytes: &[u8], name_start: usize) -> (r: SequenceEnd)
    requires
        name_start <= bytes@.len(),
    ensures
        r matches SequenceEnd::Match(e) ==> e == name_start + 7 && e <= bytes@.len()
            && spells_script(bytes@, name_start as int) && ends_tag_name(bytes@[name_start + 6]),
        r matches SequenceEnd::Incomplete ==> name_start + 7 > bytes@.len(),
        (r is Match) == (name_start + 7 <= bytes@.len() && spells_script(bytes@, name_start as int)
            && ends_tag_name(bytes@[name_start + 6])),
        (r is Incomplete) == (name_start + 7 > bytes@.len()
            && forall|j: int| 0 <= j < 6 && name_start + j < bytes@.len() ==> (#[trigger] bytes@[name_start + j] | 32) == script_letter(j)),
{
    let mut k: usize = 0;
    while k < 6
        invariant
            k <= 6,
            name_start <= bytes@.len(),
            forall|j: int| 0 <= j < k ==> name_start + j < bytes@.len() && (#[trigger] bytes@[name_start + j] | 32) == script_letter(j),
        decreases 6 - k,
    {
        if k >= bytes.len() - name_start {
            return SequenceEnd::Incomplete;
        }
        if bytes[name_start + k] | 32 != letter(k) {
            assert(!spells_script(bytes@, name_start as int)) by {
                if spells_script(bytes@, name_start as int) {
                    assert((bytes@[name_start + k] | 32) == script_letter(k as int));
                }
            }
            return SequenceEnd::NoMatch;
        }
        k = k + 1;
    }
    if bytes.len() - name_start <= 6 {
        return SequenceEnd::Incomplete;
    }
    let d = name_start + 6;
    let c = bytes[d];
    if c == 62 || c == 47 || is_whitespace(c) {
        SequenceEnd::Match(d + 1)
    } else {
        SequenceEnd::NoMatch
    }
}

/// Where script data stops in a chunk.
pub enum ScriptBoundary {
    /// An end tag that closes the script starts here.
    Close(usize),
    /// A `<` whose meaning depends on bytes not yet seen starts here.
    Pending(usize),
    /// The chunk is all script data.
    Complete,
}

/// Whether `script` and a delimiter stand at `from`.
pub open spec fn script_match_at(b: Seq<u8>, from: int) -> bool {
    from + 7 <= b.len() && spells_script(b, from) && ends_tag_name(b[from + 6])
}

/// Whether the bytes end at `from` before `script` and its delimiter could
/// be told apart from something else.
pub open spec fn script_incomplete_at(b: Seq<u8>, from: int) -> bool {
    from + 7 > b.len() && forall|j: int| 0 <= j < 6 && from + j < b.len() ==> (#[trigger] b[from + j] | 32) == script_letter(j)
}

/// The first `avail` bytes at `i` agree with `<!--`.
pub open spec fn comment_opener_at(b: Seq<u8>, i: int, avail: int) -> bool {
    forall|k: int| 0 <= k < avail ==> #[trigger] b[i + k] == seq![60u8, 33, 45, 45][k]
}

/// The script-data state after a byte `c` other than `<`.
pub open spec fn script_next_state(state: u8, c: u8) -> u8 {
    if state == SCRIPT_DATA_ESCAPED && c == 45 {
        SCRIPT_DATA_ESCAPED_DASH
    } else if state == SCRIPT_DATA_ESCAPED_DASH && c == 45 {
        SCRIPT_DATA_ESCAPED_DASH_DASH
    } else if state == SCRIPT_DATA_ESCAPED_DASH {
        SCRIPT_DATA_ESCAPED
    } else if state == SCRIPT_DATA_ESCAPED_DASH_DASH && c == 62 {
        SCRIPT_DATA
    } else if state == SCRIPT_DATA_ESCAPED_DASH_DASH && c != 45 {
        SCRIPT_DATA_ESCAPED
    } else if state == SCRIPT_DATA_DOUBLE_ESCAPED && c == 45 {
        SCRIPT_DATA_DOUBLE_ESCAPED_DASH
    } else if state == SCRIPT_DATA_DOUBLE_ESCAPED_DASH && c == 45 {
        SCRIPT_DATA_DOUBLE_ESCAPED_DASH_DASH
    } else if state == SCRIPT_DATA_DOUBLE_ESCAPED_DASH {
        SCRIPT_DATA_DOUBLE_ESCAPED
    } else if state == SCRIPT_DATA_DOUBLE_ESCAPED_DASH_DASH && c == 62 {
        SCRIPT_DATA
    } else if state == SCRIPT_DATA_DOUBLE_ESCAPED_DASH_DASH && c != 45 {
        SCRIPT_DATA_DOUBLE_ESCAPED
    } else {
        state
    }
}

/// The HTML tokenizer's script-data states run from `i` in `state`: the
/// first `</script` (with a delimiter) met outside the double-escaped state
/// closes, a `<` whose meaning needs bytes past the end is pending, and
/// otherwise the whole chunk is script data; with the state reached.
pub open spec fn script_scan(b: Seq<u8>, i: int, state: u8) -> (ScriptBoundary, u8)
    decreases b.len() - i,
{
    if i < 0 || i >= b.len() {
        (ScriptBoundary::Complete, state)
    } else if b[i] != 60 {
        script_scan(b, i + 1, script_next_state(state, b[i]))
    } else if i + 1 == b.len() {
        (ScriptBoundary::Pending(i as usize), state)
    } else if state == SCRIPT_DATA {
        if b[i + 1] == 47 {
            if script_match_at(b, i + 2) {
                (ScriptBoundary::Close(i as usize), state)
            } else if script_incomplete_at(b, i + 2) {
                (ScriptBoundary::Pending(i as usize), state)
            } else {
                script_scan(b, i + 1, state)
            }
        } else if b[i + 1] == 33 {
            let avail = if b.len() - i < 4 { b.len() - i } else { 4 };
            if comment_opener_at(b, i, avail) {
                if avail < 4 {
                    (ScriptBoundary::Pending(i as usize), state)
                } else {
                    script_scan(b, i + 4, SCRIPT_DATA_ESCAPED_DASH_DASH)
                }
            } else {
                script_scan(b, i + 1, state)
            }
        } else {
            script_scan(b, i + 1, state)
        }
    } else {
        let escaped = state < SCRIPT_DATA_DOUBLE_ESCAPED;
        let st = if escaped { SCRIPT_DATA_ESCAPED } else { SCRIPT_DATA_DOUBLE_ESCAPED };
        let is_end = b[i + 1] == 47;
        if is_end || escaped {
            let from = if is_end { i + 2 } else { i + 1 };
            if script_match_at(b, from) {
                if is_end && escaped {
                    (ScriptBoundary::Close(i as usize), st)
                } else if is_end {
                    script_scan(b, from + 7, SCRIPT_DATA_ESCAPED)
                } else {
                    script_scan(b, from + 7, SCRIPT_DATA_DOUBLE_ESCAPED)
                }
            } else if script_incomplete_at(b, from) {
                (ScriptBoundary::Pending(i as usize), st)
            } else {
                script_scan(b, i + 1, st)
            }
        } else {
            script_scan(b, i + 1, st)
        }
    }
}

/// Scans script data from `start` in tokenizer state `initial_state`;
/// returns where it stops and the state there.
pub fn find_script_end_tag(bytes: &[u8], start: usize, initial_state: u8) -> (r: (ScriptBoundary, u8))
    requires
        start <= bytes@.len(),
    ensures
        r.1 <= 6 || r.1 == initial_state,
        r.0 matches ScriptBoundary::Close(i) ==> start <= i && i + 8 < bytes@.len() && bytes@[i as int] == 60
            && bytes@[i + 1] == 47 && spells_script(bytes@, i + 2) && ends_tag_name(bytes@[i + 8]),
        r.0 matches ScriptBoundary::Pending(i) ==> start <= i < bytes@.len() && bytes@[i as int] == 60,
        r == script_scan(bytes@, start as int, initial_state),
{
    let mut state = initial_state;
    let mut i = start;
    let n = bytes.len();
    while i < n
        invariant
            start <= i <= n == bytes@.len(),
            state <= 6 || state == initial_state,
            script_scan(bytes@, start as int, initial_state) == script_scan(bytes@, i as int, state),
        ensures
            i == n,
            script_scan(bytes@, start as int, initial_state) == script_scan(bytes@, i as int, state),
        decreases n - i,
    {
        let ghost i0 = i;
        if state == SCRIPT_DATA {
            while i < n && bytes[i] != 60
                invariant
                    start <= i0 <= i <= n == bytes@.len(),
                    state == SCRIPT_DATA,
                    script_scan(bytes@, start as int, initial_state) == script_scan(bytes@, i as int, state),
                decreases n - i,
            {
                i = i + 1;
            }
        } else if state == SCRIPT_DATA_ESCAPED || state == SCRIPT_DATA_DOUBLE_ESCAPED {
            while i < n && bytes[i] != 60 && bytes[i] != 45
                invariant
                    start <= i0 <= i <= n == bytes@.len(),
                    state == SCRIPT_DATA_ESCAPED || state == SCRIPT_DATA_DOUBLE_ESCAPED,
                    script_scan(bytes@, start as int, initial_state) == script_scan(bytes@, i as int, state),
                decreases n - i,
            {
                i = i + 1;
            }
        }
        if i == n {
            break;
        }
        let c = bytes[i];
        if c == 60 {
            if i + 1 == n {
                return (ScriptBoundary::Pending(i), state);
            }
            let next = bytes[i + 1];
            if state == SCRIPT_DATA {
                if next == 47 {
                    match script_sequence_end(bytes, i + 2) {
                        SequenceEnd::Match(_) => {
                            return (ScriptBoundary::Close(i), state);
                        },
                        SequenceEnd::Incomplete => {
                            return (ScriptBoundary::Pending(i), state);
                        },
                        SequenceEnd::NoMatch => {},
                    }
                } else if next == 33 {
                    let available = if n - i < 4 { n - i } else { 4 };
                    let opener: [u8; 4] = [60, 33, 45, 45];
                    let mut same = true;
                    let mut k: usize = 0;
                    assert(opener@ =~= seq![60u8, 33, 45, 45]);
                    while k < available
                        invariant
                            k <= available <= 4,
                            i + available <= n == bytes@.len(),
                            opener@ == seq![60u8, 33, 45, 45],
                            same == comment_opener_at(bytes@, i as int, k as int),
                        decreases available - k,
                    {
                        if bytes[i + k] != opener[k] {
                            same = false;
                        }
                        k = k + 1;
                    }
                    if same {
                        if available < 4 {
                            return (ScriptBoundary::Pending(i), state);
                        }
                        state = SCRIPT_DATA_ESCAPED_DASH_DASH;
                        i = i + 4;
                        continue;
                    }
                }
            } else {
                let escaped = state < SCRIPT_DATA_DOUBLE_ESCAPED;
                state = if escaped { SCRIPT_DATA_ESCAPED } else { SCRIPT_DATA_DOUBLE_ESCAPED };
                let is_end_tag = next == 47;
                if is_end_tag || escaped {
                    let from = if is_end_tag { i + 2 } else { i + 1 };
                    match script_sequence_end(bytes, from) {
                        SequenceEnd::Match(sequence_end) => {
                            if is_end_tag {
                                if escaped {
                                    return (ScriptBoundary::Close(i), state);
                                }
                                state = SCRIPT_DATA_ESCAPED;
                            } else {
                                state = SCRIPT_DATA_DOUBLE_ESCAPED;
                            }
                            i = sequence_end;
                            continue;
                        },
                        SequenceEnd::Incomplete => {
                            return (ScriptBoundary::Pending(i), state);
                        },
                        SequenceEnd::NoMatch => {},
                    }
                }
            }
        } else {
            state = if state == SCRIPT_DATA_ESCAPED && c == 45 {
                SCRIPT_DATA_ESCAPED_DASH
            } else if state == SCRIPT_DATA_ESCAPED_DASH && c == 45 {
                SCRIPT_DATA_ESCAPED_DASH_DASH
            } else if state == SCRIPT_DATA_ESCAPED_DASH {
                SCRIPT_DATA_ESCAPED
            } else if state == SCRIPT_DATA_ESCAPED_DASH_DASH && c == 62 {
                SCRIPT_DATA
            } else if state == SCRIPT_DATA_ESCAPED_DASH_DASH && c != 45 {
                SCRIPT_DATA_ESCAPED
            } else if state == SCRIPT_DATA_DOUBLE_ESCAPED && c == 45 {
                SCRIPT_DATA_DOUBLE_ESCAPED_DASH
            } else if state == SCRIPT_DATA_DOUBLE_ESCAPED_DASH && c == 45 {
                SCRIPT_DATA_DOUBLE_ESCAPED_DASH_DASH
            } else if state == SCRIPT_DATA_DOUBLE_ESCAPED_DASH {
                SCRIPT_DATA_DOUBLE_ESCAPED
            } else if state == SCRIPT_DATA_DOUBLE_ESCAPED_DASH_DASH && c == 62 {
                SCRIPT_DATA
            } else if state == SCRIPT_DATA_DOUBLE_ESCAPED_DASH_DASH && c != 45 {
                SCRIPT_DATA_DOUBLE_ESCAPED
            } else {
                state
            };
        }
        i = i + 1;
    }
    (ScriptBoundary::Complete, state)
}

} // verus!
