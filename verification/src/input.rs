use vstd::prelude::*;

use crate::query::first_occ;
use crate::text::{str_eq, find_sub, match_at, contains_seq};

verus! {

/// A key code, modelled on the codes the terminal reports. Character
/// keys carry their character with case preserved.
#[derive(Debug, Clone, Copy, PartialEq, Eq, Hash, Structural)]
pub enum KeyCode {
    Char(char),
    Enter,
    Esc,
    Backspace,
    Tab,
    Up,
    Down,
    Left,
    Right,
}

/// A key code together with its modifier set: the atomic unit of input.
#[derive(Debug, Clone, Copy, PartialEq, Eq, Hash, Structural)]
pub struct KeyCombination {
    pub code: KeyCode,
    pub ctrl: bool,
    pub alt: bool,
    pub shift: bool,
}

/// The combination of a bare character key.
pub open spec fn plain(c: char) -> KeyCombination {
    KeyCombination { code: KeyCode::Char(c), ctrl: false, alt: false, shift: false }
}

/// The combination of a bare non-character key.
pub open spec fn special(code: KeyCode) -> KeyCombination {
    KeyCombination { code, ctrl: false, alt: false, shift: false }
}

/// ASCII lowercase of one character.
pub open spec fn lower_char(c: char) -> char {
    if 'A' <= c && c <= 'Z' {
        (((c as u8) + 32) as char)
    } else {
        c
    }
}

/// ASCII lowercase of a character sequence.
pub open spec fn ascii_lower(s: Seq<char>) -> Seq<char> {
    s.map_values(|c: char| lower_char(c))
}

/// The parts of a key notation, split on every dash.
pub open spec fn dash_parts(s: Seq<char>) -> Seq<Seq<char>>
    decreases s.len(),
{
    let k = first_occ(s, "-"@, 0);
    if 0 <= k < s.len() {
        seq![s.take(k)] + dash_parts(s.skip(k + 1))
    } else {
        seq![s]
    }
}

pub open spec fn is_ctrl_tok(t: Seq<char>) -> bool {
    ascii_lower(t) == "ctrl"@ || ascii_lower(t) == "c"@
}

pub open spec fn is_alt_tok(t: Seq<char>) -> bool {
    ascii_lower(t) == "alt"@ || ascii_lower(t) == "a"@
}

pub open spec fn is_shift_tok(t: Seq<char>) -> bool {
    ascii_lower(t) == "shift"@ || ascii_lower(t) == "s"@
}

/// The key code a notation token denotes: a named key, compared case
/// insensitively, or a single character, case preserved.
pub open spec fn code_of(t: Seq<char>) -> Option<KeyCode> {
    let lt = ascii_lower(t);
    if lt == "enter"@ {
        Some(KeyCode::Enter)
    } else if lt == "esc"@ {
        Some(KeyCode::Esc)
    } else if lt == "backspace"@ {
        Some(KeyCode::Backspace)
    } else if lt == "tab"@ {
        Some(KeyCode::Tab)
    } else if lt == "up"@ {
        Some(KeyCode::Up)
    } else if lt == "down"@ {
        Some(KeyCode::Down)
    } else if lt == "left"@ {
        Some(KeyCode::Left)
    } else if lt == "right"@ {
        Some(KeyCode::Right)
    } else if lt == "space"@ {
        Some(KeyCode::Char(' '))
    } else if t.len() == 1 {
        Some(KeyCode::Char(t[0]))
    } else {
        None
    }
}

/// The combination a textual notation such as `ctrl-d`, `-` or `enter`
/// denotes. The bare dash is the dash key itself; otherwise the notation
/// splits on dashes, every part but the last naming a modifier (unknown
/// modifier names are ignored) and the last naming the code.
pub open spec fn combo_of_str(s: Seq<char>) -> Option<KeyCombination> {
    if s == "-"@ {
        Some(plain('-'))
    } else {
        let ps = dash_parts(s);
        match code_of(ps.last()) {
            Some(code) => Some(
                KeyCombination {
                    code,
                    ctrl: exists|i: int| 0 <= i < ps.len() - 1 && is_ctrl_tok(#[trigger] ps[i]),
                    alt: exists|i: int| 0 <= i < ps.len() - 1 && is_alt_tok(#[trigger] ps[i]),
                    shift: exists|i: int| 0 <= i < ps.len() - 1 && is_shift_tok(#[trigger] ps[i]),
                },
            ),
            None => None,
        }
    }
}

/// The three modifier token classes are mutually exclusive.
proof fn lemma_tok_classes(t: Seq<char>)
    ensures
        is_ctrl_tok(t) ==> !is_alt_tok(t) && !is_shift_tok(t),
        is_alt_tok(t) ==> !is_ctrl_tok(t) && !is_shift_tok(t),
        is_shift_tok(t) ==> !is_ctrl_tok(t) && !is_alt_tok(t),
{
    reveal_strlit("ctrl");
    reveal_strlit("c");
    reveal_strlit("alt");
    reveal_strlit("a");
    reveal_strlit("shift");
    reveal_strlit("s");
    assert("ctrl"@.len() == 4);
    assert("alt"@.len() == 3);
    assert("shift"@.len() == 5);
    assert("c"@.len() == 1 && "c"@[0] == 'c');
    assert("a"@.len() == 1 && "a"@[0] == 'a');
    assert("s"@.len() == 1 && "s"@[0] == 's');
}

/// Whether the ASCII lowercase of `s` equals `lit`.
fn eq_lower(s: &str, lit: &str) -> (r: bool)
    ensures
        r == (ascii_lower(s@) == lit@),
{
    let slen = s.unicode_len();
    let llen = lit.unicode_len();
    if slen != llen {
        return false;
    }
    let mut i: usize = 0;
    while i < slen
        invariant
            i <= slen,
            slen == s@.len(),
            llen == lit@.len(),
            slen == llen,
            forall|j: int| 0 <= j < i ==> lower_char(s@[j]) == lit@[j],
        decreases slen - i,
    {
        let c = s.get_char(i);
        let lc: char = if c >= 'A' && c <= 'Z' {
            ((c as u8) + 32) as char
        } else {
            c
        };
        if lc != lit.get_char(i) {
            assert(ascii_lower(s@)[i as int] == lc);
            return false;
        }
        i += 1;
    }
    proof {
        assert(ascii_lower(s@) =~= lit@);
    }
    true
}

fn code_of_exec(t: &str) -> (r: Option<KeyCode>)
    ensures
        r == code_of(t@),
{
    if eq_lower(t, "enter") {
        Some(KeyCode::Enter)
    } else if eq_lower(t, "esc") {
        Some(KeyCode::Esc)
    } else if eq_lower(t, "backspace") {
        Some(KeyCode::Backspace)
    } else if eq_lower(t, "tab") {
        Some(KeyCode::Tab)
    } else if eq_lower(t, "up") {
        Some(KeyCode::Up)
    } else if eq_lower(t, "down") {
        Some(KeyCode::Down)
    } else if eq_lower(t, "left") {
        Some(KeyCode::Left)
    } else if eq_lower(t, "right") {
        Some(KeyCode::Right)
    } else if eq_lower(t, "space") {
        Some(KeyCode::Char(' '))
    } else if t.unicode_len() == 1 {
        Some(KeyCode::Char(t.get_char(0)))
    } else {
        None
    }
}

impl KeyCombination {
    /// Parse a textual key notation.
    pub fn from_str(s: &str) -> (r: Option<KeyCombination>)
        ensures
            r == combo_of_str(s@),
    {
        proof {
            reveal_strlit("-");
        }
        if str_eq(s, "-") {
            return Some(KeyCombination { code: KeyCode::Char('-'), ctrl: false, alt: false, shift: false });
        }
        // split on dashes
        let mut parts: Vec<&str> = Vec::new();
        let mut cur: &str = s;
        while true
            invariant_except_break
                dash_parts(s@) =~= parts@.map_values(|p: &str| p@) + dash_parts(cur@),
            ensures
                dash_parts(s@) =~= parts@.map_values(|p: &str| p@).push(cur@),
                !contains_seq(cur@, "-"@),
            decreases cur@.len(),
        {
            let found = find_sub(cur, "-");
            proof {
                reveal_strlit("-");
                crate::query::lemma_find_first_occ(cur@, "-"@, found);
            }
            match found {
                Some(k) => {
                    let clen = cur.unicode_len();
                    let head = cur.substring_char(0, k);
                    let tail = cur.substring_char(k + 1, clen);
                    proof {
                        assert(head@ =~= cur@.take(k as int));
                        assert(tail@ =~= cur@.skip(k as int + 1));
                    }
                    let ghost pv = parts@.map_values(|p: &str| p@);
                    parts.push(head);
                    proof {
                        assert(parts@.map_values(|p: &str| p@) =~= pv.push(head@));
                        assert(dash_parts(cur@) =~= seq![cur@.take(k as int)] + dash_parts(
                            cur@.skip(k as int + 1),
                        ));
                    }
                    cur = tail;
                },
                None => {
                    proof {
                        assert(dash_parts(cur@) =~= seq![cur@]);
                    }
                    break;
                },
            }
        }
        let ghost pv = parts@.map_values(|p: &str| p@).push(cur@);
        // modifiers from every part but the last, which is the code
        let mut ctrl = false;
        let mut alt = false;
        let mut shift = false;
        let mut i: usize = 0;
        while i < parts.len()
            invariant
                i <= parts.len(),
                pv =~= parts@.map_values(|p: &str| p@).push(cur@),
                pv.len() == parts@.len() + 1,
                ctrl == exists|t: int| 0 <= t < i && is_ctrl_tok(#[trigger] pv[t]),
                alt == exists|t: int| 0 <= t < i && is_alt_tok(#[trigger] pv[t]),
                shift == exists|t: int| 0 <= t < i && is_shift_tok(#[trigger] pv[t]),
            decreases parts.len() - i,
        {
            proof {
                lemma_tok_classes(pv[i as int]);
            }
            assert(pv[i as int] == parts@[i as int]@);
            if eq_lower(parts[i], "ctrl") || eq_lower(parts[i], "c") {
                ctrl = true;
                assert(is_ctrl_tok(pv[i as int]));
            } else if eq_lower(parts[i], "alt") || eq_lower(parts[i], "a") {
                alt = true;
                assert(is_alt_tok(pv[i as int]));
            } else if eq_lower(parts[i], "shift") || eq_lower(parts[i], "s") {
                shift = true;
                assert(is_shift_tok(pv[i as int]));
            }
            i += 1;
        }
        proof {
            assert(pv.last() == cur@);
            assert(pv.len() - 1 == parts@.len());
        }
        match code_of_exec(cur) {
            Some(code) => Some(KeyCombination { code, ctrl, alt, shift }),
            None => None,
        }
    }
}

} // verus!
