//! Configuration values and their defaults, and the colour notation used in
//! config.toml. Missing keys fall back to the defaults below, so a partial (or
//! absent) config file is always valid.

use vstd::prelude::*;
use vstd::string::StringExecFns;

use crate::text::{chars_of, hex_digit, push_char, push_hex_byte, spec_hex_byte};

verus! {

/// Which way frames go out.
pub struct Display {
    /// Push frames to the cooler's LCD.
    pub lcd: bool,
    /// Also write each frame to disk, for previewing styles or feeding OBS.
    pub save_png: bool,
    pub png_path: String,
    /// Degrees, one of 0/90/180/270. Applied while rendering, so the device
    /// itself is always left at orientation 0.
    pub rotation: u32,
    /// LCD backlight, 0-100.
    pub brightness: u8,
}

/// Which cooler to talk to. All blank/zero means "use the first one found".
pub struct Device {
    pub vendor_id: u16,
    pub product_id: u16,
    pub serial: String,
}

/// Where temperatures come from.
pub struct Sensors {
    /// auto | pawnio | none
    pub cpu: String,
    /// auto | nvidia | wddm | none
    pub gpu: String,
    /// Folder holding the PawnIO .bin modules.
    pub pawnio_modules: String,
}

/// Colours of a style, as `#RRGGBB` or `#RGB`.
pub struct Colors {
    pub background: String,
    pub text: String,
    pub accent: String,
    pub accent_gpu: String,
    pub track: String,
    pub alert_background: String,
    pub alert_text: String,
}

/// Fan and pump control.
pub struct Fan {
    /// When false, `fan silent`/`fan perf` refuse to run and the LCD service
    /// never touches the speed channels.
    pub enabled: bool,
    pub silent: Profile,
    pub performance: Profile,
}

/// A profile is a duty curve per channel: a list of [liquid_temp, duty%] points,
/// interpolated by the firmware between 20 and 59 C.
pub struct Profile {
    pub pump: Vec<[u8; 2]>,
    pub fan: Vec<[u8; 2]>,
}

/// `s` holds exactly the `[temperature, duty]` points of `q`, in order.
pub open spec fn points_are(s: Seq<[u8; 2]>, q: Seq<(u8, u8)>) -> bool {
    &&& s.len() == q.len()
    &&& forall|i: int| 0 <= i < s.len() ==> #[trigger] s[i][0] == q[i].0 && s[i][1] == q[i].1
}

impl Default for Display {
    fn default() -> (d: Self)
        ensures
            d.lcd,
            d.save_png,
            d.png_path@ == "data/frame.png"@,
            d.rotation == 90,
            d.brightness == 100,
    {
        Display {
            lcd: true,
            save_png: true,
            png_path: String::from_str("data/frame.png"),
            rotation: 90,
            brightness: 100,
        }
    }
}

impl Default for Device {
    fn default() -> (d: Self)
        ensures
            d.vendor_id == 0,
            d.product_id == 0,
            d.serial@ == Seq::<char>::empty(),
    {
        Device { vendor_id: 0, product_id: 0, serial: String::new() }
    }
}

impl Default for Sensors {
    fn default() -> (s: Self)
        ensures
            s.cpu@ == "auto"@,
            s.gpu@ == "auto"@,
            s.pawnio_modules@ == "modules"@,
    {
        Sensors {
            cpu: String::from_str("auto"),
            gpu: String::from_str("auto"),
            pawnio_modules: String::from_str("modules"),
        }
    }
}

impl Default for Colors {
    fn default() -> (c: Self)
        ensures
            c.background@ == "#000000"@,
            c.text@ == "#FFFFFF"@,
            c.accent@ == "#FF7A1A"@,
            c.accent_gpu@ == "#FF7A1A"@,
            c.track@ == "#202020"@,
            c.alert_background@ == "#FF0000"@,
            c.alert_text@ == "#FFFFFF"@,
    {
        Colors {
            background: String::from_str("#000000"),
            text: String::from_str("#FFFFFF"),
            accent: String::from_str("#FF7A1A"),
            accent_gpu: String::from_str("#FF7A1A"),
            track: String::from_str("#202020"),
            alert_background: String::from_str("#FF0000"),
            alert_text: String::from_str("#FFFFFF"),
        }
    }
}

impl Default for Profile {
    fn default() -> (p: Self)
        ensures
            p.pump@.len() == 0,
            p.fan@.len() == 0,
    {
        Profile { pump: Vec::new(), fan: Vec::new() }
    }
}

impl Default for Fan {
    fn default() -> (f: Self)
        ensures
            f.enabled,
            points_are(f.silent.pump@, seq![(20u8, 60u8), (35, 60), (40, 70), (45, 80), (50, 90), (55, 100)]),
            points_are(f.silent.fan@, seq![(20u8, 30u8), (35, 30), (40, 40), (45, 55), (50, 75), (55, 100)]),
            points_are(
                f.performance.pump@,
                seq![(20u8, 70u8), (35, 70), (40, 80), (45, 85), (50, 90), (55, 95), (60, 100)],
            ),
            points_are(
                f.performance.fan@,
                seq![(20u8, 50u8), (35, 50), (40, 60), (45, 70), (50, 80), (55, 90), (60, 100)],
            ),
    {
        Fan {
            enabled: true,
            silent: Profile {
                pump: vec![[20, 60], [35, 60], [40, 70], [45, 80], [50, 90], [55, 100]],
                fan: vec![[20, 30], [35, 30], [40, 40], [45, 55], [50, 75], [55, 100]],
            },
            performance: Profile {
                pump: vec![[20, 70], [35, 70], [40, 80], [45, 85], [50, 90], [55, 95], [60, 100]],
                fan: vec![[20, 50], [35, 50], [40, 60], [45, 70], [50, 80], [55, 90], [60, 100]],
            },
        }
    }
}

// ------------------------------------------------------------------------
// Colours
// ------------------------------------------------------------------------

/// Unicode White_Space, the characters `str::trim` removes.
pub open spec fn is_white_space(c: char) -> bool {
    ||| ('\t' <= c && c <= '\r')
    ||| c == ' '
    ||| c == '\u{85}'
    ||| c == '\u{A0}'
    ||| c == '\u{1680}'
    ||| ('\u{2000}' <= c && c <= '\u{200A}')
    ||| c == '\u{2028}'
    ||| c == '\u{2029}'
    ||| c == '\u{202F}'
    ||| c == '\u{205F}'
    ||| c == '\u{3000}'
}

/// `s` without leading and trailing white space.
pub open spec fn trimmed(s: Seq<char>) -> Seq<char>
    decreases s.len(),
{
    if s.len() == 0 {
        s
    } else if is_white_space(s[0]) {
        trimmed(s.drop_first())
    } else if is_white_space(s.last()) {
        trimmed(s.drop_last())
    } else {
        s
    }
}

/// `s` without its leading `#` characters.
pub open spec fn without_hashes(s: Seq<char>) -> Seq<char>
    decreases s.len(),
{
    if s.len() > 0 && s[0] == '#' {
        without_hashes(s.drop_first())
    } else {
        s
    }
}

pub open spec fn is_hex_char(c: char) -> bool {
    ('0' <= c && c <= '9') || ('a' <= c && c <= 'f') || ('A' <= c && c <= 'F')
}

pub open spec fn hex_char_value(c: char) -> int {
    if '0' <= c && c <= '9' {
        c as int - '0' as int
    } else if 'a' <= c && c <= 'f' {
        c as int - 'a' as int + 10
    } else {
        c as int - 'A' as int + 10
    }
}

pub open spec fn all_hex(s: Seq<char>) -> bool {
    forall|i: int| 0 <= i < s.len() ==> is_hex_char(#[trigger] s[i])
}

/// The number that the hex digits `s` spell, most significant first.
pub open spec fn hex_value(s: Seq<char>) -> int
    decreases s.len(),
{
    if s.len() == 0 {
        0
    } else {
        hex_value(s.drop_last()) * 16 + hex_char_value(s.last())
    }
}

/// The number that `s` spells when it is one or more hex digits and nothing
/// else; `None` for any other text (a sign included).
pub open spec fn parse_hex(s: Seq<char>) -> Option<int> {
    if s.len() > 0 && all_hex(s) {
        Some(hex_value(s))
    } else {
        None
    }
}

/// The colour written as `hex`: `#RRGGBB` or `#RGB`, with surrounding white
/// space and any number of leading `#` ignored. Anything else is magenta, so
/// that a typo in the config is visible rather than silent.
pub open spec fn spec_hex_rgb(hex: Seq<char>) -> (u8, u8, u8) {
    let h = without_hashes(trimmed(hex));
    if h.len() == 3 {
        let v = match parse_hex(h) {
            Some(v) => v,
            None => 0xF0F,
        };
        (
            (17 * ((v / 256) % 16)) as u8,
            (17 * ((v / 16) % 16)) as u8,
            (17 * (v % 16)) as u8,
        )
    } else if h.len() == 6 {
        match parse_hex(h) {
            Some(v) => (((v / 65536) % 256) as u8, ((v / 256) % 256) as u8, (v % 256) as u8),
            None => (255u8, 0u8, 255u8),
        }
    } else {
        (255u8, 0u8, 255u8)
    }
}

proof fn lemma_hex_value_bound(s: Seq<char>)
    requires
        all_hex(s),
    ensures
        0 <= hex_value(s) < pow16(s.len()),
    decreases s.len(),
{
    if s.len() > 0 {
        assert(all_hex(s.drop_last()));
        assert(is_hex_char(s[s.len() - 1]));
        lemma_hex_value_bound(s.drop_last());
    }
}

pub open spec fn pow16(n: nat) -> int
    decreases n,
{
    if n == 0 {
        1
    } else {
        16 * pow16((n - 1) as nat)
    }
}

fn is_white_space_char(c: char) -> (r: bool)
    ensures
        r == is_white_space(c),
{
    ('\t' <= c && c <= '\r') || c == ' ' || c == '\u{85}' || c == '\u{A0}' || c == '\u{1680}'
        || ('\u{2000}' <= c && c <= '\u{200A}') || c == '\u{2028}' || c == '\u{2029}'
        || c == '\u{202F}' || c == '\u{205F}' || c == '\u{3000}'
}

fn hex_char(c: char) -> (r: Option<u32>)
    ensures
        r is Some <==> is_hex_char(c),
        r matches Some(v) ==> v == hex_char_value(c) && v < 16,
{
    if '0' <= c && c <= '9' {
        Some((c as u32) - 48)
    } else if 'a' <= c && c <= 'f' {
        Some((c as u32) - 87)
    } else if 'A' <= c && c <= 'F' {
        Some((c as u32) - 55)
    } else {
        None
    }
}

/// Trimming, seen as the bounds of what it keeps.
proof fn lemma_trimmed_range(s: Seq<char>, lo: int, hi: int)
    requires
        0 <= lo <= hi <= s.len(),
        forall|i: int| 0 <= i < lo ==> is_white_space(#[trigger] s[i]),
        forall|i: int| hi <= i < s.len() ==> is_white_space(#[trigger] s[i]),
        lo < hi ==> !is_white_space(s[lo]) && !is_white_space(s[hi - 1]),
    ensures
        trimmed(s) == s.subrange(lo, hi),
    decreases s.len(),
{
    if s.len() == 0 {
    } else if is_white_space(s[0]) {
        assert(lo > 0 || hi == 0);
        if lo > 0 {
            lemma_trimmed_range(s.drop_first(), lo - 1, hi - 1);
            assert(s.drop_first().subrange(lo - 1, hi - 1) == s.subrange(lo, hi));
        } else {
            // Nothing is kept: every character is white space.
            assert forall|i: int| 0 <= i < s.drop_first().len() implies is_white_space(#[trigger] s.drop_first()[i]) by {
                assert(s.drop_first()[i] == s[i + 1]);
            }
            lemma_trimmed_range(s.drop_first(), 0, 0);
            assert(s.subrange(lo, hi) =~= Seq::<char>::empty());
            assert(s.drop_first().subrange(0, 0) =~= Seq::<char>::empty());
        }
    } else if is_white_space(s.last()) {
        assert(lo == 0);
        assert(hi < s.len() || lo == hi);
        if hi < s.len() {
            lemma_trimmed_range(s.drop_last(), lo, hi);
            assert(s.drop_last().subrange(lo, hi) == s.subrange(lo, hi));
        } else {
            assert(false);
        }
    } else {
        assert(lo == 0 && hi == s.len());
        assert(s.subrange(0, s.len() as int) == s);
    }
}

/// Dropping leading `#`s, seen as a start index.
proof fn lemma_without_hashes_from(s: Seq<char>, k: int)
    requires
        0 <= k <= s.len(),
        forall|i: int| 0 <= i < k ==> #[trigger] s[i] == '#',
        k < s.len() ==> s[k] != '#',
    ensures
        without_hashes(s) == s.subrange(k, s.len() as int),
    decreases k,
{
    if k > 0 {
        lemma_without_hashes_from(s.drop_first(), k - 1);
        assert(s.drop_first().subrange(k - 1, s.drop_first().len() as int) == s.subrange(k, s.len() as int));
    } else {
        assert(s.subrange(0, s.len() as int) == s);
    }
}

/// Parse `cs[from..to]`, at most six characters, as hex digits only
/// (see `parse_hex`).
fn parse_hex_range(cs: &Vec<char>, from: usize, to: usize) -> (r: Option<u32>)
    requires
        from <= to <= cs@.len(),
        to - from <= 6,
    ensures
        r matches Some(v) ==> parse_hex(cs@.subrange(from as int, to as int)) == Some(v as int),
        r is None ==> parse_hex(cs@.subrange(from as int, to as int)) is None,
{
    let ghost s = cs@.subrange(from as int, to as int);
    if from >= to {
        return None;
    }
    let mut v: u32 = 0;
    let mut i = from;
    while i < to
        invariant
            from <= i <= to <= cs@.len(),
            from < to,
            to - from <= 6,
            s == cs@.subrange(from as int, to as int),
            all_hex(cs@.subrange(from as int, i as int)),
            v == hex_value(cs@.subrange(from as int, i as int)),
            v < pow16((i - from) as nat),
        decreases to - i,
    {
        match hex_char(cs[i]) {
            Some(x) => {
                proof {
                    let p = cs@.subrange(from as int, i as int);
                    let q = cs@.subrange(from as int, i as int + 1);
                    assert(q.drop_last() == p);
                    assert(q.last() == cs@[i as int]);
                    assert(pow16((i - from) as nat) <= 0x100000) by {
                        lemma_pow16_le((i - from) as nat, 5);
                        reveal_with_fuel(pow16, 6);
                    }
                    assert(forall|j: int| 0 <= j < q.len() ==> #[trigger] q[j] == if j < p.len() { p[j] } else { cs@[i as int] });
                }
                v = v * 16 + x;
                i = i + 1;
            },
            None => {
                proof {
                    assert(s[i - from] == cs@[i as int]);
                    assert(!all_hex(s));
                }
                return None;
            },
        }
    }
    proof {
        assert(cs@.subrange(from as int, i as int) == s);
    }
    Some(v)
}

proof fn lemma_pow16_le(n: nat, m: nat)
    requires
        n <= m,
    ensures
        pow16(n) <= pow16(m),
    decreases m,
{
    if n < m {
        lemma_pow16_le(n, (m - 1) as nat);
        lemma_pow16_positive((m - 1) as nat);
    }
}

proof fn lemma_pow16_positive(n: nat)
    ensures
        pow16(n) > 0,
    decreases n,
{
    if n > 0 {
        lemma_pow16_positive((n - 1) as nat);
    }
}

/// The red, green and blue bytes of a colour written as `#RRGGBB` or `#RGB`
/// (see `spec_hex_rgb`).
pub fn hex_rgb(hex: &str) -> (rgb: (u8, u8, u8))
    ensures
        rgb == spec_hex_rgb(hex@),
{
    let cs = chars_of(hex);
    let n = cs.len();
    let mut lo: usize = 0;
    while lo < n && is_white_space_char(cs[lo])
        invariant
            0 <= lo <= n,
            n == cs@.len(),
            forall|i: int| 0 <= i < lo ==> is_white_space(#[trigger] cs@[i]),
        decreases n - lo,
    {
        lo = lo + 1;
    }
    let mut hi: usize = n;
    while hi > lo && is_white_space_char(cs[hi - 1])
        invariant
            lo <= hi <= n,
            n == cs@.len(),
            forall|i: int| hi <= i < n ==> is_white_space(#[trigger] cs@[i]),
        decreases hi,
    {
        hi = hi - 1;
    }
    proof {
        lemma_trimmed_range(cs@, lo as int, hi as int);
    }
    let ghost t = cs@.subrange(lo as int, hi as int);
    let mut k: usize = lo;
    while k < hi && cs[k] == '#'
        invariant
            lo <= k <= hi,
            hi <= cs@.len(),
            t == cs@.subrange(lo as int, hi as int),
            forall|i: int| lo <= i < k ==> #[trigger] cs@[i] == '#',
        decreases hi - k,
    {
        k = k + 1;
    }
    proof {
        lemma_without_hashes_from(t, k - lo);
        assert(t.subrange(k - lo, t.len() as int) == cs@.subrange(k as int, hi as int));
    }
    let len = hi - k;
    if len == 3 {
        let v = match parse_hex_range(&cs, k, hi) {
            Some(v) => v,
            None => 0xF0F,
        };
        proof {
            lemma_parsed_bound(cs@.subrange(k as int, hi as int));
            reveal_with_fuel(pow16, 4);
        }
        let r = ((v >> 8) & 0xF) as u8;
        let g = ((v >> 4) & 0xF) as u8;
        let b = (v & 0xF) as u8;
        proof {
            assert(v < 4096);
            assert((v >> 8) & 0xF == (v / 256) % 16) by (bit_vector);
            assert((v >> 4) & 0xF == (v / 16) % 16) by (bit_vector);
            assert(v & 0xF == v % 16) by (bit_vector);
        }
        (r * 17, g * 17, b * 17)
    } else if len == 6 {
        match parse_hex_range(&cs, k, hi) {
            Some(v) => {
                proof {
                    lemma_parsed_bound(cs@.subrange(k as int, hi as int));
                    reveal_with_fuel(pow16, 7);
                    assert(v < 0x1000000);
                    assert((v >> 16) & 0xFF == (v / 65536) % 256) by (bit_vector);
                    assert((v >> 8) & 0xFF == (v / 256) % 256) by (bit_vector);
                    assert(v & 0xFF == v % 256) by (bit_vector);
                }
                (((v >> 16) & 0xFF) as u8, ((v >> 8) & 0xFF) as u8, (v & 0xFF) as u8)
            },
            None => (255, 0, 255),
        }
    } else {
        (255, 0, 255)
    }
}

/// A parsed hex number is below 16 to the power of its digit count.
proof fn lemma_parsed_bound(s: Seq<char>)
    ensures
        parse_hex(s) matches Some(v) ==> 0 <= v < pow16(s.len()),
{
    if s.len() > 0 && all_hex(s) {
        lemma_hex_value_bound(s);
    }
}

/// `#RRGGBB` in upper-case hex, as `format!("#{:02X}{:02X}{:02X}")` writes it.
pub open spec fn spec_rgb_hex(r: u8, g: u8, b: u8) -> Seq<char> {
    seq!['#'] + spec_hex_byte(r) + spec_hex_byte(g) + spec_hex_byte(b)
}

/// The colour `(r, g, b)` written as `#RRGGBB`.
pub fn rgb_hex(r: u8, g: u8, b: u8) -> (s: String)
    ensures
        s@ == spec_rgb_hex(r, g, b),
{
    let mut s = String::new();
    push_char(&mut s, '#');
    push_hex_byte(&mut s, r);
    push_hex_byte(&mut s, g);
    push_hex_byte(&mut s, b);
    s
}

proof fn lemma_hex_digit_roundtrip(x: int)
    requires
        0 <= x < 16,
    ensures
        is_hex_char(hex_digit(x)),
        hex_char_value(hex_digit(x)) == x,
        hex_digit(x) != '#',
        !is_white_space(hex_digit(x)),
{
}

/// Law: a colour written by `rgb_hex` reads back as the same colour.
pub proof fn lemma_rgb_hex_roundtrip(r: u8, g: u8, b: u8)
    ensures
        spec_hex_rgb(spec_rgb_hex(r, g, b)) == (r, g, b),
{
    let h = spec_rgb_hex(r, g, b);
    let d = h.drop_first();
    let ds = seq![r as int / 16, r as int % 16, g as int / 16, g as int % 16, b as int / 16, b as int % 16];
    assert(d.len() == 6);
    assert forall|i: int| 0 <= i < 6 implies #[trigger] d[i] == hex_digit(ds[i]) by {
    }
    assert forall|i: int| 0 <= i < 6 implies is_hex_char(#[trigger] d[i]) && hex_char_value(d[i]) == ds[i] && d[i] != '#' && !is_white_space(d[i]) by {
        lemma_hex_digit_roundtrip(ds[i]);
    }
    assert(h[0] == '#');
    assert(h.last() == d[5]);
    assert(trimmed(h) == h);
    assert(without_hashes(d) == d);
    assert(without_hashes(h) == d);
    assert(all_hex(d));
    assert(parse_hex(d) == Some(hex_value(d)));
    assert(hex_value(d) == r as int * 65536 + g as int * 256 + b as int) by {
        let d5 = d.drop_last();
        let d4 = d5.drop_last();
        let d3 = d4.drop_last();
        let d2 = d3.drop_last();
        let d1 = d2.drop_last();
        let d0 = d1.drop_last();
        assert(d0.len() == 0);
        assert(hex_value(d0) == 0);
        assert(hex_value(d1) == ds[0]);
        assert(hex_value(d2) == ds[0] * 16 + ds[1]);
        assert(hex_value(d3) == (ds[0] * 16 + ds[1]) * 16 + ds[2]);
        assert(hex_value(d4) == ((ds[0] * 16 + ds[1]) * 16 + ds[2]) * 16 + ds[3]);
        assert(hex_value(d5) == (((ds[0] * 16 + ds[1]) * 16 + ds[2]) * 16 + ds[3]) * 16 + ds[4]);
        assert(hex_value(d) == ((((ds[0] * 16 + ds[1]) * 16 + ds[2]) * 16 + ds[3]) * 16 + ds[4]) * 16 + ds[5]);
    }
    let v = r as int * 65536 + g as int * 256 + b as int;
    assert((v / 65536) % 256 == r && (v / 256) % 256 == g && v % 256 == b) by (nonlinear_arith)
        requires v == r as int * 65536 + g as int * 256 + b as int, 0 <= r < 256, 0 <= g < 256, 0 <= b < 256;
}

/// Law: the short form `#RGB` is the long form with every digit doubled.
pub proof fn lemma_short_hex_doubles(r: int, g: int, b: int)
    requires
        0 <= r < 16,
        0 <= g < 16,
        0 <= b < 16,
    ensures
        spec_hex_rgb(seq!['#', hex_digit(r), hex_digit(g), hex_digit(b)]) == spec_hex_rgb(
            seq!['#', hex_digit(r), hex_digit(r), hex_digit(g), hex_digit(g), hex_digit(b), hex_digit(b)],
        ),
{
    lemma_hex_digit_roundtrip(r);
    lemma_hex_digit_roundtrip(g);
    lemma_hex_digit_roundtrip(b);
    let short = seq!['#', hex_digit(r), hex_digit(g), hex_digit(b)];
    let long = seq!['#', hex_digit(r), hex_digit(r), hex_digit(g), hex_digit(g), hex_digit(b), hex_digit(b)];
    let s3 = short.drop_first();
    let l6 = long.drop_first();
    assert(trimmed(short) == short);
    assert(trimmed(long) == long);
    assert(without_hashes(s3) == s3);
    assert(without_hashes(short) == s3);
    assert(without_hashes(l6) == l6);
    assert(without_hashes(long) == l6);
    assert(all_hex(s3));
    assert(all_hex(l6));
    assert(hex_value(s3) == (r * 16 + g) * 16 + b) by {
        let s2 = s3.drop_last();
        let s1 = s2.drop_last();
        let s0 = s1.drop_last();
        assert(s0.len() == 0 && hex_value(s0) == 0);
        assert(hex_value(s1) == r);
        assert(hex_value(s2) == r * 16 + g);
    }
    assert(hex_value(l6) == ((((r * 16 + r) * 16 + g) * 16 + g) * 16 + b) * 16 + b) by {
        let l5 = l6.drop_last();
        let l4 = l5.drop_last();
        let l3 = l4.drop_last();
        let l2 = l3.drop_last();
        let l1 = l2.drop_last();
        let l0 = l1.drop_last();
        assert(l0.len() == 0 && hex_value(l0) == 0);
        assert(hex_value(l1) == r);
        assert(hex_value(l2) == r * 16 + r);
        assert(hex_value(l3) == (r * 16 + r) * 16 + g);
        assert(hex_value(l4) == ((r * 16 + r) * 16 + g) * 16 + g);
        assert(hex_value(l5) == (((r * 16 + r) * 16 + g) * 16 + g) * 16 + b);
    }
    let v = (r * 16 + g) * 16 + b;
    let w = ((((r * 16 + r) * 16 + g) * 16 + g) * 16 + b) * 16 + b;
    assert((v / 256) % 16 == r && (v / 16) % 16 == g && v % 16 == b) by (nonlinear_arith)
        requires v == (r * 16 + g) * 16 + b, 0 <= r < 16, 0 <= g < 16, 0 <= b < 16;
    assert((w / 65536) % 256 == 17 * r && (w / 256) % 256 == 17 * g && w % 256 == 17 * b) by (nonlinear_arith)
        requires w == ((((r * 16 + r) * 16 + g) * 16 + g) * 16 + b) * 16 + b, 0 <= r < 16, 0 <= g < 16, 0 <= b < 16;
}

/// tiny-skia's colour type, carried through as an opaque value.
#[verifier::external_type_specification]
#[verifier::external_body]
pub struct ExColor(tiny_skia::Color);

/// The colour `tiny_skia::Color::from_rgba8` builds from four bytes.
pub uninterp spec fn rgba8_color(r: u8, g: u8, b: u8, a: u8) -> tiny_skia::Color;

/// Trusted: `tiny_skia::Color::from_rgba8`, which builds a colour from its
/// four channels and depends on nothing else. Its contract only names the
/// result; what is inside the colour (normalised floats) is not stated.
#[verifier::external_body]
fn color_from_rgba8(r: u8, g: u8, b: u8, a: u8) -> (c: tiny_skia::Color)
    ensures
        c == rgba8_color(r, g, b, a),
{
    tiny_skia::Color::from_rgba8(r, g, b, a)
}

/// Parse "#RRGGBB" (or "#RGB") into an opaque tiny-skia colour, falling back
/// to magenta so a typo in the config is visible rather than silent.
pub fn color(hex: &str) -> (c: tiny_skia::Color)
    ensures
        c == rgba8_color(spec_hex_rgb(hex@).0, spec_hex_rgb(hex@).1, spec_hex_rgb(hex@).2, 255),
{
    let (r, g, b) = hex_rgb(hex);
    color_from_rgba8(r, g, b, 255)
}

/// `c` with an ASCII lower-case letter turned into its upper-case form.
pub open spec fn upper_char(c: char) -> char {
    if 'a' <= c && c <= 'z' {
        ((c as int) - 32) as char
    } else {
        c
    }
}

/// `s` with every ASCII lower-case letter turned into upper case.
pub open spec fn ascii_upper(s: Seq<char>) -> Seq<char> {
    s.map_values(|c: char| upper_char(c))
}

proof fn lemma_upper_char(c: char)
    ensures
        is_white_space(upper_char(c)) == is_white_space(c),
        (upper_char(c) == '#') == (c == '#'),
        is_hex_char(upper_char(c)) == is_hex_char(c),
        is_hex_char(c) ==> hex_char_value(upper_char(c)) == hex_char_value(c),
{
}

proof fn lemma_upper_trimmed(s: Seq<char>)
    ensures
        trimmed(ascii_upper(s)) == ascii_upper(trimmed(s)),
    decreases s.len(),
{
    let u = ascii_upper(s);
    if s.len() > 0 {
        lemma_upper_char(s[0]);
        lemma_upper_char(s.last());
        assert(u[0] == upper_char(s[0]));
        assert(u.last() == upper_char(s.last()));
        if is_white_space(s[0]) {
            assert(u.drop_first() =~= ascii_upper(s.drop_first()));
            lemma_upper_trimmed(s.drop_first());
        } else if is_white_space(s.last()) {
            assert(u.drop_last() =~= ascii_upper(s.drop_last()));
            lemma_upper_trimmed(s.drop_last());
        }
    }
}

proof fn lemma_upper_without_hashes(s: Seq<char>)
    ensures
        without_hashes(ascii_upper(s)) == ascii_upper(without_hashes(s)),
    decreases s.len(),
{
    let u = ascii_upper(s);
    if s.len() > 0 {
        lemma_upper_char(s[0]);
        assert(u[0] == upper_char(s[0]));
        if s[0] == '#' {
            assert(u.drop_first() =~= ascii_upper(s.drop_first()));
            lemma_upper_without_hashes(s.drop_first());
        }
    }
}

proof fn lemma_upper_hex_value(s: Seq<char>)
    requires
        all_hex(s),
    ensures
        hex_value(ascii_upper(s)) == hex_value(s),
    decreases s.len(),
{
    let u = ascii_upper(s);
    if s.len() > 0 {
        assert(u.drop_last() =~= ascii_upper(s.drop_last()));
        assert(all_hex(s.drop_last()));
        lemma_upper_hex_value(s.drop_last());
        lemma_upper_char(s.last());
        assert(is_hex_char(s[s.len() - 1]));
        assert(u.last() == upper_char(s.last()));
    }
}

proof fn lemma_upper_parse_hex(s: Seq<char>)
    ensures
        parse_hex(ascii_upper(s)) == parse_hex(s),
{
    let u = ascii_upper(s);
    assert forall|i: int| 0 <= i < s.len() implies is_hex_char(#[trigger] u[i]) == is_hex_char(s[i]) by {
        lemma_upper_char(s[i]);
    }
    if all_hex(s) {
        assert(all_hex(u));
        lemma_upper_hex_value(s);
    } else {
        let i = choose|i: int| 0 <= i < s.len() && !is_hex_char(#[trigger] s[i]);
        assert(!is_hex_char(u[i]));
    }
}

/// Law: hex digits are read without regard to case. Each lower-case `a` to
/// `f` is a hex digit of the same value as its upper-case form, and so a
/// colour reads the same as its ASCII upper-cased text.
pub proof fn lemma_hex_case_insensitive(s: Seq<char>)
    ensures
        forall|c: char| 'a' <= c <= 'f' ==> is_hex_char(c) && is_hex_char(#[trigger] upper_char(c))
            && hex_char_value(c) == hex_char_value(upper_char(c)) && hex_char_value(c) == c as int - 'a' as int + 10,
        spec_hex_rgb(ascii_upper(s)) == spec_hex_rgb(s),
{
    lemma_upper_trimmed(s);
    lemma_upper_without_hashes(trimmed(s));
    let h = without_hashes(trimmed(s));
    lemma_upper_parse_hex(h);
}

} // verus!
