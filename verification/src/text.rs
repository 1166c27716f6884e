//! Text helpers: comparing and building strings, decimal and hex digits, and
//! removing ANSI colour codes for terminals and log files that cannot render
//! them.

use vstd::prelude::*;
use vstd::std_specs::iter::IteratorSpec;

verus! {

/// The escape character that starts an ANSI sequence.
pub const ESC: char = '\x1b';

/// Appends `c` to `s`.
///
/// Trusted: `String::push`, which std documents as appending the given char
/// to the end of the string.
#[verifier::external_body]
pub fn push_char(s: &mut String, c: char)
    ensures
        final(s)@ == old(s)@.push(c),
{
    s.push(c);
}

/// The characters of `s`, in order.
pub fn chars_of(s: &str) -> (v: Vec<char>)
    ensures
        v@ == s@,
{
    broadcast use vstd::string::group_string_axioms;

    let mut it = s.chars();
    let mut v: Vec<char> = Vec::new();
    loop
        invariant
            s@ == v@ + it.remaining(),
            it.obeys_prophetic_iter_laws(),
            it.decrease() is Some,
        ensures
            s@ == v@,
        decreases it.decrease()->0,
    {
        let ghost before = it.remaining();
        match it.next() {
            Some(c) => {
                v.push(c);
                assert(s@ == v@ + it.remaining()) by {
                    assert(before == seq![c] + before.drop_first());
                }
            },
            None => {
                assert(before.len() == 0);
                assert(s@ == v@);
                break;
            },
        }
    }
    v
}

/// Whether two strings hold the same characters.
pub fn text_eq(a: &str, b: &str) -> (r: bool)
    ensures
        r == (a@ == b@),
{
    let x = chars_of(a);
    let y = chars_of(b);
    if x.len() != y.len() {
        return false;
    }
    let mut i: usize = 0;
    while i < x.len()
        invariant
            0 <= i <= x@.len(),
            x@.len() == y@.len(),
            x@ == a@,
            y@ == b@,
            forall|j: int| 0 <= j < i ==> x@[j] == y@[j],
        decreases x@.len() - i,
    {
        if x[i] != y[i] {
            return false;
        }
        i = i + 1;
    }
    assert(x@ =~= y@);
    true
}

/// The code of `c` with ASCII upper-case letters folded to lower case.
pub open spec fn ascii_fold(c: char) -> int {
    if 'A' <= c && c <= 'Z' {
        c as int + 32
    } else {
        c as int
    }
}

/// Equal up to the case of ASCII letters: the same length, and each pair of
/// characters the same once ASCII upper case is folded to lower case.
pub open spec fn spec_eq_ignore_ascii_case(a: Seq<char>, b: Seq<char>) -> bool {
    a.len() == b.len() && forall|i: int| 0 <= i < a.len() ==> ascii_fold(#[trigger] a[i]) == ascii_fold(b[i])
}

fn fold_code(c: char) -> (r: u32)
    ensures
        r == ascii_fold(c),
{
    if 'A' <= c && c <= 'Z' {
        (c as u32) + 32
    } else {
        c as u32
    }
}

/// Whether two strings are equal ignoring the case of ASCII letters.
pub fn eq_ignore_ascii_case(a: &str, b: &str) -> (r: bool)
    ensures
        r == spec_eq_ignore_ascii_case(a@, b@),
{
    let x = chars_of(a);
    let y = chars_of(b);
    if x.len() != y.len() {
        return false;
    }
    let mut i: usize = 0;
    while i < x.len()
        invariant
            0 <= i <= x@.len(),
            x@.len() == y@.len(),
            x@ == a@,
            y@ == b@,
            forall|j: int| 0 <= j < i ==> ascii_fold(#[trigger] x@[j]) == ascii_fold(y@[j]),
        decreases x@.len() - i,
    {
        if fold_code(x[i]) != fold_code(y[i]) {
            return false;
        }
        i = i + 1;
    }
    true
}

/// The character for a digit value below 16, upper-case for 10 to 15.
pub open spec fn hex_digit(d: int) -> char {
    if d < 10 {
        ('0' as int + d) as char
    } else {
        ('A' as int + d - 10) as char
    }
}

fn digit_char(d: u8) -> (c: char)
    requires
        d < 16,
    ensures
        c == hex_digit(d as int),
{
    if d < 10 {
        ((48 + d) as char)
    } else {
        ((55 + d) as char)
    }
}

/// Two upper-case hex digits for a byte, as `{:02X}` writes it.
pub open spec fn spec_hex_byte(b: u8) -> Seq<char> {
    seq![hex_digit(b as int / 16), hex_digit(b as int % 16)]
}

/// Append the two upper-case hex digits of `b` to `s`.
pub fn push_hex_byte(s: &mut String, b: u8)
    ensures
        final(s)@ == old(s)@ + spec_hex_byte(b),
{
    push_char(s, digit_char(b / 16));
    push_char(s, digit_char(b % 16));
}

/// Decimal digits of `n`, as `{}` writes an unsigned integer.
pub open spec fn spec_decimal(n: nat) -> Seq<char>
    decreases n,
{
    if n < 10 {
        seq![hex_digit(n as int)]
    } else {
        spec_decimal(n / 10) + seq![hex_digit((n % 10) as int)]
    }
}

/// The decimal representation of `n`.
pub fn decimal(n: u64) -> (s: String)
    ensures
        s@ == spec_decimal(n as nat),
    decreases n,
{
    if n < 10 {
        let mut s = String::new();
        push_char(&mut s, digit_char(n as u8));
        s
    } else {
        let mut s = decimal(n / 10);
        push_char(&mut s, digit_char((n % 10) as u8));
        s
    }
}

// ------------------------------------------------------------------------
// ANSI colour codes
// ------------------------------------------------------------------------

pub open spec fn is_ascii_alpha(c: char) -> bool {
    ('a' <= c && c <= 'z') || ('A' <= c && c <= 'Z')
}

/// Where the scan over a string stands: in plain text, just after an escape
/// character, or inside an `ESC [ ... letter` sequence.
pub enum AnsiState {
    Text,
    Escape,
    Sequence,
}

/// The characters of `s` from `i` on that survive stripping, when the scan
/// is in `state` at `i`: plain characters are kept; an escape character and
/// the one after it are dropped; when that one is `[`, everything up to and
/// including the next ASCII letter is dropped too.
pub open spec fn strip_from(s: Seq<char>, i: int, state: AnsiState) -> Seq<char>
    decreases s.len() - i,
{
    if i >= s.len() || i < 0 {
        Seq::empty()
    } else {
        let c = s[i];
        match state {
            AnsiState::Text => if c != ESC {
                seq![c] + strip_from(s, i + 1, AnsiState::Text)
            } else {
                strip_from(s, i + 1, AnsiState::Escape)
            },
            AnsiState::Escape => if c == '[' {
                strip_from(s, i + 1, AnsiState::Sequence)
            } else {
                strip_from(s, i + 1, AnsiState::Text)
            },
            AnsiState::Sequence => if is_ascii_alpha(c) {
                strip_from(s, i + 1, AnsiState::Text)
            } else {
                strip_from(s, i + 1, AnsiState::Sequence)
            },
        }
    }
}

pub open spec fn spec_strip_ansi(s: Seq<char>) -> Seq<char> {
    strip_from(s, 0, AnsiState::Text)
}

/// Remove `ESC [ ... m` sequences (any `ESC [` up to the next ASCII letter),
/// for terminals that would print them raw. An escape character not followed
/// by `[` is dropped with the character after it.
pub fn strip_ansi(text: &str) -> (out: String)
    ensures
        out@ == spec_strip_ansi(text@),
{
    let cs = chars_of(text);
    let mut out = String::new();
    let mut state = AnsiState::Text;
    let mut i: usize = 0;
    while i < cs.len()
        invariant
            0 <= i <= cs@.len(),
            cs@ == text@,
            spec_strip_ansi(text@) == out@ + strip_from(cs@, i as int, state),
        decreases cs@.len() - i,
    {
        let c = cs[i];
        match state {
            AnsiState::Text => {
                if c != ESC {
                    let ghost before = out@;
                    push_char(&mut out, c);
                    proof {
                        let rest = strip_from(cs@, i + 1, AnsiState::Text);
                        assert(before.push(c) + rest == before + (seq![c] + rest));
                    }
                } else {
                    state = AnsiState::Escape;
                }
            },
            AnsiState::Escape => {
                if c == '[' {
                    state = AnsiState::Sequence;
                } else {
                    state = AnsiState::Text;
                }
            },
            AnsiState::Sequence => {
                if ('a' <= c && c <= 'z') || ('A' <= c && c <= 'Z') {
                    state = AnsiState::Text;
                }
            },
        }
        i = i + 1;
    }
    assert(out@ == out@ + Seq::<char>::empty());
    out
}

/// Stripping never leaves an escape character behind.
proof fn lemma_strip_from_no_escape(s: Seq<char>, i: int, state: AnsiState)
    ensures
        forall|j: int| 0 <= j < strip_from(s, i, state).len() ==> #[trigger] strip_from(s, i, state)[j] != ESC,
    decreases s.len() - i,
{
    if 0 <= i < s.len() {
        let c = s[i];
        let next = match state {
            AnsiState::Text => if c != ESC { AnsiState::Text } else { AnsiState::Escape },
            AnsiState::Escape => if c == '[' { AnsiState::Sequence } else { AnsiState::Text },
            AnsiState::Sequence => if is_ascii_alpha(c) { AnsiState::Text } else { AnsiState::Sequence },
        };
        lemma_strip_from_no_escape(s, i + 1, next);
        let rest = strip_from(s, i + 1, next);
        if state is Text && c != ESC {
            assert(strip_from(s, i, state) == seq![c] + rest);
            assert forall|j: int| 0 <= j < (seq![c] + rest).len() implies (seq![c] + rest)[j] != ESC by {
                if j > 0 {
                    assert((seq![c] + rest)[j] == rest[j - 1]);
                }
            }
        } else {
            assert(strip_from(s, i, state) == rest);
        }
    }
}

/// Text without escape characters passes through unchanged.
proof fn lemma_strip_from_plain(s: Seq<char>, i: int)
    requires
        0 <= i <= s.len(),
        forall|j: int| 0 <= j < s.len() ==> s[j] != ESC,
    ensures
        strip_from(s, i, AnsiState::Text) == s.subrange(i, s.len() as int),
    decreases s.len() - i,
{
    if i < s.len() {
        lemma_strip_from_plain(s, i + 1);
        assert(s.subrange(i, s.len() as int) == seq![s[i]] + s.subrange(i + 1, s.len() as int));
    } else {
        assert(s.subrange(i, s.len() as int) =~= Seq::<char>::empty());
    }
}

/// Law: stripped text holds no escape character, text without one is left
/// as it is, and so stripping twice is the same as stripping once.
pub proof fn lemma_strip_ansi_laws(s: Seq<char>)
    ensures
        forall|j: int| 0 <= j < spec_strip_ansi(s).len() ==> #[trigger] spec_strip_ansi(s)[j] != ESC,
        (forall|j: int| 0 <= j < s.len() ==> s[j] != ESC) ==> spec_strip_ansi(s) == s,
        spec_strip_ansi(spec_strip_ansi(s)) == spec_strip_ansi(s),
{
    lemma_strip_from_no_escape(s, 0, AnsiState::Text);
    if forall|j: int| 0 <= j < s.len() ==> s[j] != ESC {
        lemma_strip_from_plain(s, 0);
        assert(s.subrange(0, s.len() as int) == s);
    }
    let t = spec_strip_ansi(s);
    lemma_strip_from_plain(t, 0);
    assert(t.subrange(0, t.len() as int) == t);
}

/// Whether `idx` picks the characters of `t` out of `s`, in order: the
/// positions in `s` at which the characters of `t` stand, strictly rising.
pub open spec fn picks(t: Seq<char>, s: Seq<char>, idx: Seq<int>) -> bool {
    &&& idx.len() == t.len()
    &&& forall|k: int| 0 <= k < idx.len() ==> 0 <= #[trigger] idx[k] < s.len() && s[idx[k]] == t[k]
    &&& forall|k: int, l: int| 0 <= k < l < idx.len() ==> #[trigger] idx[k] < #[trigger] idx[l]
}

/// Whether `t` is a subsequence of `s`: `s` with some characters left out.
pub open spec fn is_subsequence(t: Seq<char>, s: Seq<char>) -> bool {
    exists|idx: Seq<int>| picks(t, s, idx)
}

/// The positions in `s` of the characters that survive stripping from `i` on.
proof fn lemma_strip_from_picks(s: Seq<char>, i: int, state: AnsiState) -> (idx: Seq<int>)
    requires
        0 <= i <= s.len(),
    ensures
        picks(strip_from(s, i, state), s, idx),
        forall|k: int| 0 <= k < idx.len() ==> i <= #[trigger] idx[k],
    decreases s.len() - i,
{
    if i == s.len() {
        Seq::empty()
    } else {
        let c = s[i];
        let next = match state {
            AnsiState::Text => if c != ESC { AnsiState::Text } else { AnsiState::Escape },
            AnsiState::Escape => if c == '[' { AnsiState::Sequence } else { AnsiState::Text },
            AnsiState::Sequence => if is_ascii_alpha(c) { AnsiState::Text } else { AnsiState::Sequence },
        };
        let rest = lemma_strip_from_picks(s, i + 1, next);
        let tail = strip_from(s, i + 1, next);
        if state is Text && c != ESC {
            let idx = seq![i] + rest;
            let t = seq![c] + tail;
            assert(strip_from(s, i, state) == t);
            assert forall|k: int| 0 <= k < idx.len() implies 0 <= #[trigger] idx[k] < s.len() && s[idx[k]] == t[k]
                && i <= idx[k] by {
                if k > 0 {
                    assert(idx[k] == rest[k - 1]);
                    assert(t[k] == tail[k - 1]);
                }
            }
            assert forall|k: int, l: int| 0 <= k < l < idx.len() implies #[trigger] idx[k] < #[trigger] idx[l] by {
                if k > 0 {
                    assert(idx[k] == rest[k - 1]);
                }
                assert(idx[l] == rest[l - 1]);
            }
            idx
        } else {
            assert(strip_from(s, i, state) == tail);
            rest
        }
    }
}

/// Law: stripping only leaves characters out; what remains is the input's
/// characters in their order.
pub proof fn lemma_strip_ansi_subsequence(s: Seq<char>)
    ensures
        is_subsequence(spec_strip_ansi(s), s),
{
    let idx = lemma_strip_from_picks(s, 0, AnsiState::Text);
    assert(picks(spec_strip_ansi(s), s, idx));
}

} // verus!
