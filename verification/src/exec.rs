//! Interactive terminal sessions: what to open, and how key presses are
//! turned into the bytes a terminal would send.
use vstd::prelude::*;

use crate::keys::{Key, KeyCode, KeyKind};

verus! {

/// A request to open an interactive terminal on a container. `user`:
/// `None` = the container's configured user, `Some("root")`, or a custom
/// user name.
pub struct ExecRequest {
    pub id: String,
    pub name: String,
    pub user: Option<String>,
}

/// Preferred shell bootstrap: bash when the image has it, else sh.
pub const SHELL_CMD: &'static str = "command -v bash >/dev/null 2>&1 && exec bash || exec sh";

/// The escape sequence of function key `n` (none beyond F12).
pub open spec fn fkey_bytes(n: u8) -> Seq<u8> {
    if n == 1 {
        seq![0x1bu8, 0x4f, 0x50]
    } else if n == 2 {
        seq![0x1bu8, 0x4f, 0x51]
    } else if n == 3 {
        seq![0x1bu8, 0x4f, 0x52]
    } else if n == 4 {
        seq![0x1bu8, 0x4f, 0x53]
    } else if n == 5 {
        seq![0x1bu8, 0x5b, 0x31, 0x35, 0x7e]
    } else if n == 6 {
        seq![0x1bu8, 0x5b, 0x31, 0x37, 0x7e]
    } else if n == 7 {
        seq![0x1bu8, 0x5b, 0x31, 0x38, 0x7e]
    } else if n == 8 {
        seq![0x1bu8, 0x5b, 0x31, 0x39, 0x7e]
    } else if n == 9 {
        seq![0x1bu8, 0x5b, 0x32, 0x30, 0x7e]
    } else if n == 10 {
        seq![0x1bu8, 0x5b, 0x32, 0x31, 0x7e]
    } else if n == 11 {
        seq![0x1bu8, 0x5b, 0x32, 0x33, 0x7e]
    } else if n == 12 {
        seq![0x1bu8, 0x5b, 0x32, 0x34, 0x7e]
    } else {
        Seq::empty()
    }
}

/// The bytes a key sends without modifiers, if it sends any.
pub open spec fn plain_key_bytes(code: KeyCode) -> Option<Seq<u8>> {
    match code {
        KeyCode::Char(c) => Some(vstd::utf8::encode_utf8(seq![c])),
        KeyCode::Enter => Some(seq![0x0du8]),
        KeyCode::Backspace => Some(seq![0x7fu8]),
        KeyCode::Tab => Some(seq![0x09u8]),
        KeyCode::BackTab => Some(seq![0x1bu8, 0x5b, 0x5a]),
        KeyCode::Esc => Some(seq![0x1bu8]),
        KeyCode::Up => Some(seq![0x1bu8, 0x5b, 0x41]),
        KeyCode::Down => Some(seq![0x1bu8, 0x5b, 0x42]),
        KeyCode::Right => Some(seq![0x1bu8, 0x5b, 0x43]),
        KeyCode::Left => Some(seq![0x1bu8, 0x5b, 0x44]),
        KeyCode::Home => Some(seq![0x1bu8, 0x5b, 0x48]),
        KeyCode::End => Some(seq![0x1bu8, 0x5b, 0x46]),
        KeyCode::PageUp => Some(seq![0x1bu8, 0x5b, 0x35, 0x7e]),
        KeyCode::PageDown => Some(seq![0x1bu8, 0x5b, 0x36, 0x7e]),
        KeyCode::Insert => Some(seq![0x1bu8, 0x5b, 0x32, 0x7e]),
        KeyCode::Delete => Some(seq![0x1bu8, 0x5b, 0x33, 0x7e]),
        KeyCode::F(n) => Some(fkey_bytes(n)),
        KeyCode::Other => None,
    }
}

/// A key that is not a character and sends something of its own: the
/// editing and cursor keys, and F1 to F12.
pub open spec fn named_key(c: KeyCode) -> bool {
    &&& !(c is Char)
    &&& c != KeyCode::Other
    &&& (c matches KeyCode::F(n) ==> 1 <= n <= 12)
}

proof fn lemma_fkeys_distinct(n: u8, m: u8)
    requires
        1 <= n <= 12,
        1 <= m <= 12,
        n != m,
    ensures
        fkey_bytes(n) != fkey_bytes(m),
        fkey_bytes(n).len() >= 3,
        fkey_bytes(n)[0] == 0x1b,
        fkey_bytes(n)[1] == 0x4f || fkey_bytes(n)[1] == 0x5b,
        n <= 4 ==> fkey_bytes(n).len() == 3 && fkey_bytes(n)[1] == 0x4f,
        n > 4 ==> fkey_bytes(n).len() == 5 && fkey_bytes(n)[4] == 0x7e,
{
    let a = fkey_bytes(n);
    let b = fkey_bytes(m);
    if n <= 4 && m <= 4 {
        assert(a[2] != b[2]);
    } else if n > 4 && m > 4 {
        assert(a[2] != b[2] || a[3] != b[3]);
    } else {
        assert(a.len() != b.len());
    }
}

/// Different keys (other than characters) send different bytes, so the
/// terminal on the other end can tell them apart; the arrows send the
/// xterm cursor sequences ESC [ A, B, C, D for up, down, right and left.
pub proof fn lemma_named_keys_distinct(a: KeyCode, b: KeyCode)
    requires
        named_key(a),
        named_key(b),
        a != b,
    ensures
        plain_key_bytes(a) != plain_key_bytes(b),
        plain_key_bytes(KeyCode::Up) == Some(seq![0x1bu8, '[' as u8, 'A' as u8]),
        plain_key_bytes(KeyCode::Down) == Some(seq![0x1bu8, '[' as u8, 'B' as u8]),
        plain_key_bytes(KeyCode::Right) == Some(seq![0x1bu8, '[' as u8, 'C' as u8]),
        plain_key_bytes(KeyCode::Left) == Some(seq![0x1bu8, '[' as u8, 'D' as u8]),
{
    let pa = plain_key_bytes(a)->0;
    let pb = plain_key_bytes(b)->0;
    if let KeyCode::F(n) = a {
        if let KeyCode::F(m) = b {
            lemma_fkeys_distinct(n, m);
        } else {
            lemma_fkeys_distinct(n, if n == 1 { 2 } else { 1 });
            if pa.len() == pb.len() {
                assert(pa[1] != pb[1] || pa[2] != pb[2] || pa[pa.len() - 1] != pb[pb.len() - 1]);
            }
        }
    } else if let KeyCode::F(m) = b {
        lemma_fkeys_distinct(m, if m == 1 { 2 } else { 1 });
        if pa.len() == pb.len() {
            assert(pa[1] != pb[1] || pa[2] != pb[2] || pa[pa.len() - 1] != pb[pb.len() - 1]);
        }
    } else {
        if pa.len() == pb.len() && pa.len() > 0 {
            assert(pa[0] != pb[0] || pa[pa.len() - 1] != pb[pb.len() - 1] || pa[pa.len() - 2] != pb[pb.len() - 2]);
        }
    }
}

/// The control byte of a character: ^A..^Z for letters, NUL for space and
/// `@`, nothing else.
pub open spec fn ctrl_bytes(c: char) -> Seq<u8> {
    let l = crate::text::ascii_lower(c);
    if 'a' <= l <= 'z' {
        seq![((l as u32) - 0x60) as u8]
    } else if l == ' ' || l == '@' {
        seq![0u8]
    } else {
        Seq::empty()
    }
}

/// The bytes a terminal sends for a key event: nothing for releases,
/// control characters for Ctrl+character, ESC before anything with Alt.
pub open spec fn key_bytes(k: Key) -> Seq<u8> {
    if k.kind == KeyKind::Release {
        Seq::empty()
    } else if k.ctrl && (k.code matches KeyCode::Char(_)) {
        ctrl_bytes(k.code->Char_0)
    } else {
        match plain_key_bytes(k.code) {
            Some(b) => (if k.alt {
                seq![0x1bu8]
            } else {
                Seq::empty()
            }) + b,
            None => Seq::empty(),
        }
    }
}

fn push_bytes(out: &mut Vec<u8>, b: &[u8])
    ensures
        final(out)@ == old(out)@ + b@,
{
    let mut i: usize = 0;
    let ghost start = out@;
    while i < b.len()
        invariant
            i <= b@.len(),
            out@ == start + b@.take(i as int),
        decreases b@.len() - i,
    {
        out.push(b[i]);
        i += 1;
        assert(out@ =~= start + b@.take(i as int));
    }
    assert(b@.take(b@.len() as int) =~= b@);
}

fn plain_bytes(code: KeyCode) -> (r: Option<Vec<u8>>)
    ensures
        match plain_key_bytes(code) {
            Some(b) => r is Some && r->0@ == b,
            None => r is None,
        },
{
    let mut v: Vec<u8> = Vec::new();
    match code {
        KeyCode::Char(c) => {
            let mut s = String::new();
            crate::text::push_char(&mut s, c);
            let b = s.as_str().as_bytes();
            push_bytes(&mut v, b);
            assert(v@ =~= vstd::utf8::encode_utf8(seq![c]));
        },
        KeyCode::Enter => v.push(0x0d),
        KeyCode::Backspace => v.push(0x7f),
        KeyCode::Tab => v.push(0x09),
        KeyCode::BackTab => {
            v.push(0x1b);
            v.push(0x5b);
            v.push(0x5a);
        },
        KeyCode::Esc => v.push(0x1b),
        KeyCode::Up => {
            v.push(0x1b);
            v.push(0x5b);
            v.push(0x41);
        },
        KeyCode::Down => {
            v.push(0x1b);
            v.push(0x5b);
            v.push(0x42);
        },
        KeyCode::Right => {
            v.push(0x1b);
            v.push(0x5b);
            v.push(0x43);
        },
        KeyCode::Left => {
            v.push(0x1b);
            v.push(0x5b);
            v.push(0x44);
        },
        KeyCode::Home => {
            v.push(0x1b);
            v.push(0x5b);
            v.push(0x48);
        },
        KeyCode::End => {
            v.push(0x1b);
            v.push(0x5b);
            v.push(0x46);
        },
        KeyCode::PageUp => {
            v.push(0x1b);
            v.push(0x5b);
            v.push(0x35);
            v.push(0x7e);
        },
        KeyCode::PageDown => {
            v.push(0x1b);
            v.push(0x5b);
            v.push(0x36);
            v.push(0x7e);
        },
        KeyCode::Insert => {
            v.push(0x1b);
            v.push(0x5b);
            v.push(0x32);
            v.push(0x7e);
        },
        KeyCode::Delete => {
            v.push(0x1b);
            v.push(0x5b);
            v.push(0x33);
            v.push(0x7e);
        },
        KeyCode::F(n) => {
            if 1 <= n && n <= 4 {
                v.push(0x1b);
                v.push(0x4f);
                v.push(0x4f + n);
            } else if 5 <= n && n <= 12 {
                let (a, b): (u8, u8) = if n == 5 {
                    (0x31, 0x35)
                } else if n == 6 {
                    (0x31, 0x37)
                } else if n == 7 {
                    (0x31, 0x38)
                } else if n == 8 {
                    (0x31, 0x39)
                } else if n == 9 {
                    (0x32, 0x30)
                } else if n == 10 {
                    (0x32, 0x31)
                } else if n == 11 {
                    (0x32, 0x33)
                } else {
                    (0x32, 0x34)
                };
                v.push(0x1b);
                v.push(0x5b);
                v.push(a);
                v.push(b);
                v.push(0x7e);
            }
            assert(v@ =~= fkey_bytes(n));
        },
        KeyCode::Other => {
            return None;
        },
    }
    Some(v)
}

/// Re-encode a key event as the bytes a terminal would send.
pub fn encode_key(key: Key) -> (r: Vec<u8>)
    ensures
        r@ == key_bytes(key),
{
    if key.kind == KeyKind::Release {
        return Vec::new();
    }
    if key.ctrl {
        if let KeyCode::Char(c) = key.code {
            let mut out: Vec<u8> = Vec::new();
            let l = crate::text::to_ascii_lower(c);
            if 'a' <= l && l <= 'z' {
                let b = (l as u32 - 0x60) as u8;
                out.push(b);
            } else if l == ' ' || l == '@' {
                out.push(0);
            }
            return out;
        }
    }
    match plain_bytes(key.code) {
        Some(b) => {
            let mut out: Vec<u8> = Vec::new();
            if key.alt {
                out.push(0x1b);
            }
            push_bytes(&mut out, &b);
            out
        },
        None => Vec::new(),
    }
}

} // verus!
