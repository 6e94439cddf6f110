//! Media classification by extension, and the media facts that planning reads,
//! filled in from `ffprobe`'s report.
//!
//! Durations are held in milliseconds and frame rates as exact fractions.
use vstd::prelude::*;
use vstd::string::*;
use crate::path::{ext_lower, file_name, lemma_ext_lower_ignores_case, lower, path_ext_lower, path_file_name};
use crate::text::{chars_of, decimal, digit_char, lemma_decimal_shape, seconds3, text_eq};

verus! {

/// What kind of media a file holds.
#[derive(Debug, Clone, Copy, PartialEq, Eq, Structural)]
pub enum MediaKind {
    Video,
    Image,
    Gif,
    Pdf,
    Unknown,
}

/// A frame rate as the fraction `num / den`.
#[derive(Debug, Clone, Copy, PartialEq, Eq, Structural)]
pub struct FrameRate {
    pub num: u64,
    pub den: u64,
}

/// What is known about an input file.
#[derive(Debug, Clone)]
pub struct MediaInfo {
    pub path: String,
    pub name: String,
    pub kind: MediaKind,
    pub size: u64,
    /// Duration in milliseconds.
    pub duration_ms: Option<u64>,
    pub width: Option<u32>,
    pub height: Option<u32>,
    pub fps: Option<FrameRate>,
    pub has_audio: bool,
    pub video_codec: Option<String>,
    pub audio_codec: Option<String>,
    pub bitrate: Option<u64>,
}

/// The media kind for a lowercased extension.
pub open spec fn kind_of_ext(e: Seq<char>) -> MediaKind {
    if e == "mp4"@ || e == "mov"@ || e == "m4v"@ || e == "mkv"@ || e == "webm"@ || e == "avi"@
        || e == "flv"@ || e == "ts"@ || e == "mts"@ || e == "m2ts"@ || e == "wmv"@ || e == "3gp"@
        || e == "mpg"@ || e == "mpeg"@ || e == "ogv"@ {
        MediaKind::Video
    } else if e == "jpg"@ || e == "jpeg"@ || e == "png"@ || e == "webp"@ || e == "avif"@ || e
        == "heic"@ || e == "heif"@ || e == "tif"@ || e == "tiff"@ || e == "bmp"@ {
        MediaKind::Image
    } else if e == "gif"@ {
        MediaKind::Gif
    } else if e == "pdf"@ {
        MediaKind::Pdf
    } else {
        MediaKind::Unknown
    }
}

/// The media kind of a path, from its extension (case-insensitive).
pub fn kind_from_ext(path: &str) -> (k: MediaKind)
    ensures
        k == kind_of_ext(ext_lower(path@)),
{
    let e = path_ext_lower(path);
    let e = e.as_str();
    if text_eq(e, "mp4") || text_eq(e, "mov") || text_eq(e, "m4v") || text_eq(e, "mkv")
        || text_eq(e, "webm") || text_eq(e, "avi") || text_eq(e, "flv") || text_eq(e, "ts")
        || text_eq(e, "mts") || text_eq(e, "m2ts") || text_eq(e, "wmv") || text_eq(e, "3gp")
        || text_eq(e, "mpg") || text_eq(e, "mpeg") || text_eq(e, "ogv") {
        MediaKind::Video
    } else if text_eq(e, "jpg") || text_eq(e, "jpeg") || text_eq(e, "png") || text_eq(e, "webp")
        || text_eq(e, "avif") || text_eq(e, "heic") || text_eq(e, "heif") || text_eq(e, "tif")
        || text_eq(e, "tiff") || text_eq(e, "bmp") {
        MediaKind::Image
    } else if text_eq(e, "gif") {
        MediaKind::Gif
    } else if text_eq(e, "pdf") {
        MediaKind::Pdf
    } else {
        MediaKind::Unknown
    }
}

/// File-kind detection ignores ASCII case: two paths that differ only in the case
/// of their letters (such as `a.MP4` and `a.mp4`) are of the same kind.
pub proof fn law_kind_ignores_case(p: Seq<char>, q: Seq<char>)
    requires
        lower(p) == lower(q),
    ensures
        kind_of_ext(ext_lower(p)) == kind_of_ext(ext_lower(q)),
{
    lemma_ext_lower_ignores_case(p, q);
}

/// Whether `c` is an ASCII digit.
pub open spec fn is_digit(c: char) -> bool {
    '0' <= c && c <= '9'
}

/// The value of a digit character.
pub open spec fn digit_value(c: char) -> int {
    (c as u32) - ('0' as u32)
}

/// The value of a string of digits (zero for the empty string).
pub open spec fn digits_value(s: Seq<char>) -> int
    decreases s.len(),
{
    if s.len() == 0 {
        0
    } else {
        digits_value(s.drop_last()) * 10 + digit_value(s.last())
    }
}

/// Whether every character of `s` is a digit.
pub open spec fn all_digits(s: Seq<char>) -> bool {
    forall|i: int| 0 <= i < s.len() ==> is_digit(#[trigger] s[i])
}

/// The unsigned integer that `s` denotes (as `u64::from_str`): an optional `+`
/// followed by at least one digit, with a value that fits in 64 bits.
pub open spec fn parsed_u64(s: Seq<char>) -> Option<u64> {
    let d = if s.len() > 0 && s[0] == '+' { s.skip(1) } else { s };
    if d.len() > 0 && all_digits(d) && digits_value(d) <= u64::MAX {
        Some(digits_value(d) as u64)
    } else {
        None
    }
}

proof fn lemma_digits_value_nonneg(s: Seq<char>)
    requires
        all_digits(s),
    ensures
        digits_value(s) >= 0,
    decreases s.len(),
{
    if s.len() > 0 {
        lemma_digits_value_nonneg(s.drop_last());
    }
}

proof fn lemma_digits_value_grows(s: Seq<char>)
    requires
        all_digits(s),
        s.len() > 0,
    ensures
        digits_value(s) >= digits_value(s.drop_last()) * 10,
{
    assert(is_digit(s[s.len() - 1]));
}

/// Parses the digits `v[a..b]`: `None` when one is not a digit or the value exceeds 64 bits.
pub fn parse_digits(v: &Vec<char>, a: usize, b: usize) -> (r: Option<u64>)
    requires
        a <= b <= v@.len(),
    ensures
        ({
            let d = v@.subrange(a as int, b as int);
            match r {
                Some(x) => all_digits(d) && digits_value(d) == x,
                None => !all_digits(d) || digits_value(d) > u64::MAX,
            }
        }),
{
    let ghost d = v@.subrange(a as int, b as int);
    let mut acc: u64 = 0;
    let mut i = a;
    while i < b
        invariant
            a <= i <= b <= v@.len(),
            d == v@.subrange(a as int, b as int),
            all_digits(v@.subrange(a as int, i as int)),
            digits_value(v@.subrange(a as int, i as int)) == acc,
        decreases b - i,
    {
        let c = v[i];
        let ghost pre = v@.subrange(a as int, i as int);
        let ghost nxt = v@.subrange(a as int, i + 1);
        assert(nxt.drop_last() =~= pre);
        assert(nxt.last() == c);
        if !('0' <= c && c <= '9') {
            proof {
                let k = i - a;
                assert(d[k] == c);
                assert(!is_digit(d[k]));
            }
            return None;
        }
        let dv = (c as u32 - '0' as u32) as u64;
        assert(forall|j: int| 0 <= j < nxt.len() ==> is_digit(#[trigger] nxt[j])) by {
            assert forall|j: int| 0 <= j < nxt.len() implies is_digit(#[trigger] nxt[j]) by {
                if j < pre.len() {
                    assert(nxt[j] == pre[j]);
                }
            }
        }
        if acc > (u64::MAX - dv) / 10 {
            proof {
                lemma_digits_value_nonneg(pre);
                assert(digits_value(nxt) > u64::MAX);
                assert(nxt =~= d.take(nxt.len() as int));
                lemma_prefix_bound(d, nxt);
            }
            return None;
        }
        acc = acc * 10 + dv;
        i = i + 1;
    }
    assert(v@.subrange(a as int, i as int) =~= d);
    Some(acc)
}

/// A digit string that is too large stays too large when more digits follow,
/// and a string with a non-digit is never all digits.
proof fn lemma_prefix_bound(d: Seq<char>, pre: Seq<char>)
    requires
        pre.len() <= d.len(),
        pre == d.take(pre.len() as int),
        all_digits(pre),
        digits_value(pre) > u64::MAX,
    ensures
        !all_digits(d) || digits_value(d) > u64::MAX,
    decreases d.len() - pre.len(),
{
    if all_digits(d) && d.len() > pre.len() {
        let longer = d.take(pre.len() as int + 1);
        assert(longer.drop_last() =~= pre);
        assert(all_digits(longer));
        lemma_digits_value_grows(longer);
        lemma_digits_value_nonneg(pre);
        lemma_prefix_bound(d, longer);
    } else if all_digits(d) {
        assert(d =~= pre);
    }
}

/// Parses an unsigned decimal integer, as `u64::from_str` does.
pub fn parse_u64(s: &str) -> (r: Option<u64>)
    ensures
        r == parsed_u64(s@),
{
    let v = chars_of(s);
    let n = v.len();
    let start: usize = if n > 0 && v[0] == '+' { 1 } else { 0 };
    let ghost d = if s@.len() > 0 && s@[0] == '+' { s@.skip(1) } else { s@ };
    assert(v@.subrange(start as int, n as int) =~= d);
    if start == n {
        return None;
    }
    parse_digits(&v, start, n)
}

/// The index of the first `c` in `s`, or `s.len()`.
pub open spec fn first_index(s: Seq<char>, c: char) -> int
    decreases s.len(),
{
    if s.len() == 0 {
        0
    } else if s[0] == c {
        0
    } else {
        1 + first_index(s.skip(1), c)
    }
}

/// The text before the first `/`.
pub open spec fn first_part(s: Seq<char>) -> Seq<char> {
    s.take(first_index(s, '/'))
}

/// The text between the first and the second `/`.
pub open spec fn second_part(s: Seq<char>) -> Seq<char> {
    let rest = s.skip(first_index(s, '/') + 1);
    rest.take(first_index(rest, '/'))
}

proof fn lemma_first_index_bounds(s: Seq<char>, c: char)
    ensures
        0 <= first_index(s, c) <= s.len(),
        first_index(s, c) < s.len() ==> s[first_index(s, c)] == c,
    decreases s.len(),
{
    if s.len() > 0 && s[0] != c {
        lemma_first_index_bounds(s.skip(1), c);
    }
}

fn find_first(v: &Vec<char>, from: usize, c: char) -> (k: usize)
    requires
        from <= v@.len(),
    ensures
        k == from + first_index(v@.skip(from as int), c),
        from <= k <= v@.len(),
{
    let mut k = from;
    while k < v.len() && v[k] != c
        invariant
            from <= k <= v@.len(),
            from + first_index(v@.skip(from as int), c) == k + first_index(v@.skip(k as int), c),
        decreases v@.len() - k,
    {
        assert(v@.skip(k as int).skip(1) =~= v@.skip(k + 1));
        k = k + 1;
    }
    k
}


/// Whether every character of `v[a..b]` is a digit.
fn all_digit_range(v: &Vec<char>, a: usize, b: usize) -> (r: bool)
    requires
        a <= b <= v@.len(),
    ensures
        r == all_digits(v@.subrange(a as int, b as int)),
{
    let mut i = a;
    while i < b
        invariant
            a <= i <= b <= v@.len(),
            forall|j: int| a <= j < i ==> is_digit(#[trigger] v@[j]),
        decreases b - i,
    {
        let c = v[i];
        if !('0' <= c && c <= '9') {
            assert(v@.subrange(a as int, b as int)[i - a] == c);
            return false;
        }
        i = i + 1;
    }
    assert forall|j: int| 0 <= j < b - a implies is_digit(
        #[trigger] v@.subrange(a as int, b as int)[j],
    ) by {
        assert(v@.subrange(a as int, b as int)[j] == v@[a + j]);
    }
    true
}

/// Ten to the power `k`.
pub open spec fn pow10(k: nat) -> nat
    decreases k,
{
    if k == 0 {
        1
    } else {
        10 * pow10((k - 1) as nat)
    }
}

proof fn lemma_pow10_mono(j: nat, k: nat)
    requires
        j <= k,
    ensures
        1 <= pow10(j) <= pow10(k),
    decreases k,
{
    if k > j {
        lemma_pow10_mono(j, (k - 1) as nat);
    } else if k > 0 {
        lemma_pow10_mono(0, (k - 1) as nat);
    }
}

/// A non-negative number scaled by a power of ten is at least itself, and grows
/// with the power.
proof fn lemma_scaled_grows(d: int, j: nat, k: nat)
    requires
        d >= 0,
        j <= k,
    ensures
        d <= d * pow10(j) <= d * pow10(k),
{
    lemma_pow10_mono(j, k);
    let pj = pow10(j) as int;
    let pk = pow10(k) as int;
    assert(d <= d * pj <= d * pk) by (nonlinear_arith)
        requires
            d >= 0,
            1 <= pj <= pk,
    ;
}

/// The index of the first exponent mark (`e` or `E`) in `s`, or `s.len()`.
pub open spec fn first_exp(s: Seq<char>) -> int
    decreases s.len(),
{
    if s.len() == 0 {
        0
    } else if s[0] == 'e' || s[0] == 'E' {
        0
    } else {
        1 + first_exp(s.skip(1))
    }
}

proof fn lemma_first_exp_bounds(s: Seq<char>)
    ensures
        0 <= first_exp(s) <= s.len(),
    decreases s.len(),
{
    if s.len() > 0 && s[0] != 'e' && s[0] != 'E' {
        lemma_first_exp_bounds(s.skip(1));
    }
}

/// A decimal exponent: an optional sign and at least one digit, with a
/// magnitude that fits in 64 bits.
pub open spec fn parsed_exp(x: Seq<char>) -> Option<int> {
    let signed = x.len() > 0 && (x[0] == '+' || x[0] == '-');
    let d = if signed { x.skip(1) } else { x };
    if d.len() > 0 && all_digits(d) && digits_value(d) <= u64::MAX {
        Some(if signed && x[0] == '-' { -digits_value(d) } else { digits_value(d) })
    } else {
        None
    }
}

/// A finite, non-negative decimal number as `f64::from_str` reads it: an
/// optional `+`, digits with at most one `.` and at least one digit, and an
/// optional exponent (`e` or `E`, an optional sign, digits). The result is the
/// digit string `ds` and the power of ten `e` with value `ds × 10^e`.
pub open spec fn parsed_decimal(s: Seq<char>) -> Option<(Seq<char>, int)> {
    let t = if s.len() > 0 && s[0] == '+' { s.skip(1) } else { s };
    let ke = first_exp(t);
    let m = t.take(ke);
    let k = first_index(m, '.');
    let ip = m.take(k);
    let fp = if k < m.len() { m.skip(k + 1) } else { Seq::empty() };
    let x = if ke < t.len() { parsed_exp(t.skip(ke + 1)) } else { Some(0int) };
    if ip.len() + fp.len() > 0 && all_digits(ip) && all_digits(fp) && x is Some {
        Some((ip + fp, x.unwrap() - fp.len()))
    } else {
        None
    }
}

/// `floor(v × 10^q)` for the value `v` of the digit string `ds`.
pub open spec fn scaled_floor(ds: Seq<char>, q: int) -> int {
    if q >= 0 {
        digits_value(ds) * pow10(q as nat)
    } else if ds.len() + q > 0 {
        digits_value(ds.take(ds.len() + q))
    } else {
        0
    }
}

/// A number of seconds as whole milliseconds, rounded down. `None` for text
/// that is no finite, non-negative decimal number, and where the value does
/// not fit in 64 bits.
pub open spec fn parsed_millis(s: Seq<char>) -> Option<u64> {
    match parsed_decimal(s) {
        Some((ds, e)) => {
            let ms = scaled_floor(ds, e + 3);
            if ms <= u64::MAX { Some(ms as u64) } else { None }
        },
        None => None,
    }
}

/// The larger of `a - b` and zero.
pub open spec fn excess(a: int, b: int) -> nat {
    if a > b { (a - b) as nat } else { 0 }
}

/// The frame rate that `s` denotes: `a/b` or `a`, each a decimal number as in
/// `parsed_decimal`, as the exact fraction `a / b`; an unreadable `b` counts
/// as 1, a zero `b` gives no rate, and so does a fraction whose numerator or
/// denominator (with the decimal point cleared) does not fit in 64 bits.
pub open spec fn parsed_rate(s: Seq<char>) -> Option<FrameRate> {
    let first = first_part(s);
    match parsed_decimal(first) {
        None => None,
        Some((d1, e1)) => {
            let b: (int, int) = if first.len() == s.len() {
                (1, 0)
            } else {
                match parsed_decimal(second_part(s)) {
                    Some((d2, e2)) => (digits_value(d2), e2),
                    None => (1, 0),
                }
            };
            let num = digits_value(d1) * pow10(excess(e1, b.1));
            let den = b.0 * pow10(excess(b.1, e1));
            if b.0 == 0 || num > u64::MAX || den > u64::MAX {
                None
            } else {
                Some(FrameRate { num: num as u64, den: den as u64 })
            }
        },
    }
}

/// The first `c` in `v[from..to]`.
fn find_in(v: &Vec<char>, from: usize, to: usize, c: char) -> (k: usize)
    requires
        from <= to <= v@.len(),
    ensures
        k == from + first_index(v@.subrange(from as int, to as int), c),
        from <= k <= to,
{
    let mut k = from;
    while k < to && v[k] != c
        invariant
            from <= k <= to <= v@.len(),
            from + first_index(v@.subrange(from as int, to as int), c) == k + first_index(v@.subrange(k as int, to as int), c),
        decreases to - k,
    {
        assert(v@.subrange(k as int, to as int).skip(1) =~= v@.subrange(k + 1, to as int));
        k = k + 1;
    }
    k
}

/// The first exponent mark in `v[from..to]`.
fn find_exp_in(v: &Vec<char>, from: usize, to: usize) -> (k: usize)
    requires
        from <= to <= v@.len(),
    ensures
        k == from + first_exp(v@.subrange(from as int, to as int)),
        from <= k <= to,
{
    let mut k = from;
    while k < to && v[k] != 'e' && v[k] != 'E'
        invariant
            from <= k <= to <= v@.len(),
            from + first_exp(v@.subrange(from as int, to as int)) == k + first_exp(v@.subrange(k as int, to as int)),
        decreases to - k,
    {
        assert(v@.subrange(k as int, to as int).skip(1) =~= v@.subrange(k + 1, to as int));
        k = k + 1;
    }
    k
}

/// Reads the exponent `v[a..b]`.
fn parse_exp_range(v: &Vec<char>, a: usize, b: usize) -> (r: Option<i128>)
    requires
        a <= b <= v@.len(),
    ensures
        match parsed_exp(v@.subrange(a as int, b as int)) {
            Some(x) => r matches Some(y) && y == x && -0x1_0000_0000_0000_0000 < y < 0x1_0000_0000_0000_0000,
            None => r is None,
        },
{
    let ghost x = v@.subrange(a as int, b as int);
    let signed = a < b && (v[a] == '+' || v[a] == '-');
    let neg = signed && v[a] == '-';
    let ds: usize = if signed { a + 1 } else { a };
    assert(v@.subrange(ds as int, b as int) =~= (if signed { x.skip(1) } else { x }));
    if ds == b {
        return None;
    }
    match parse_digits(v, ds, b) {
        Some(n) => Some(if neg { -(n as i128) } else { n as i128 }),
        None => None,
    }
}

/// Appends `v[a..b]` to `out`.
fn push_range(out: &mut Vec<char>, v: &Vec<char>, a: usize, b: usize)
    requires
        a <= b <= v@.len(),
    ensures
        final(out)@ == old(out)@ + v@.subrange(a as int, b as int),
{
    let mut i = a;
    while i < b
        invariant
            a <= i <= b <= v@.len(),
            out@ == old(out)@ + v@.subrange(a as int, i as int),
        decreases b - i,
    {
        out.push(v[i]);
        assert(v@.subrange(a as int, i + 1) =~= v@.subrange(a as int, i as int).push(v@[i as int]));
        i = i + 1;
    }
}

/// Reads the decimal number `v[a..b]` as its digits and power of ten.
#[verifier::spinoff_prover]
#[verifier::rlimit(40)]
fn parse_decimal(v: &Vec<char>, a: usize, b: usize) -> (r: Option<(Vec<char>, i128)>)
    requires
        a <= b <= v@.len(),
    ensures
        match parsed_decimal(v@.subrange(a as int, b as int)) {
            Some(p) => r matches Some(q) && q.0@ == p.0 && q.1 == p.1 && all_digits(q.0@)
                && -0x4_0000_0000_0000_0000 < q.1 < 0x4_0000_0000_0000_0000,
            None => r is None,
        },
{
    let ghost s = v@.subrange(a as int, b as int);
    let start: usize = if a < b && v[a] == '+' { a + 1 } else { a };
    let ghost t = if s.len() > 0 && s[0] == '+' { s.skip(1) } else { s };
    assert(v@.subrange(start as int, b as int) =~= t);
    let ke = find_exp_in(v, start, b);
    let ghost m = t.take(ke - start);
    assert(v@.subrange(start as int, ke as int) =~= m);
    let kd = find_in(v, start, ke, '.');
    proof {
        lemma_first_index_bounds(m, '.');
    }
    let ghost ip = m.take(kd - start);
    let ghost fp = if kd - start < m.len() { m.skip(kd - start + 1) } else { Seq::<char>::empty() };
    assert(v@.subrange(start as int, kd as int) =~= ip);
    let fs: usize = if kd < ke { kd + 1 } else { ke };
    assert(v@.subrange(fs as int, ke as int) =~= fp);
    if (kd - start) + (ke - fs) == 0 {
        return None;
    }
    if !all_digit_range(v, start, kd) || !all_digit_range(v, fs, ke) {
        return None;
    }
    let x: i128 = if ke < b {
        assert(v@.subrange(ke + 1, b as int) =~= t.skip(ke - start + 1));
        match parse_exp_range(v, ke + 1, b) {
            Some(x) => x,
            None => return None,
        }
    } else {
        0
    };
    let mut ds: Vec<char> = Vec::new();
    push_range(&mut ds, v, start, kd);
    push_range(&mut ds, v, fs, ke);
    assert(ds@ =~= ip + fp);
    assert forall|i: int| 0 <= i < ds@.len() implies is_digit(#[trigger] ds@[i]) by {
        if i < ip.len() {
            assert(ds@[i] == ip[i]);
        } else {
            assert(ds@[i] == fp[i - ip.len()]);
        }
    }
    Some((ds, x - ((ke - fs) as i128)))
}

/// `d × 10^k`, where it fits in 64 bits.
fn scale_up(d: u64, k: i128) -> (r: Option<u64>)
    requires
        k >= 0,
    ensures
        match r {
            Some(m) => m == d * pow10(k as nat),
            None => d * pow10(k as nat) > u64::MAX,
        },
{
    if d == 0 {
        assert(d * pow10(k as nat) == 0);
        return Some(0);
    }
    let mut acc = d;
    let mut j: i128 = 0;
    assert(pow10(0) == 1);
    assert(d * pow10(0) == d);
    while j < k
        invariant
            0 <= j <= k,
            d >= 1,
            acc == d * pow10(j as nat),
        decreases k - j,
    {
        assert(pow10((j + 1) as nat) == 10 * pow10(j as nat));
        assert(d * pow10((j + 1) as nat) == acc * 10) by (nonlinear_arith)
            requires
                acc == d * pow10(j as nat),
                pow10((j + 1) as nat) == 10 * pow10(j as nat),
        ;
        if acc > u64::MAX / 10 {
            proof {
                lemma_scaled_grows(d as int, (j + 1) as nat, k as nat);
            }
            return None;
        }
        acc = acc * 10;
        j = j + 1;
    }
    Some(acc)
}

/// `scaled_floor(ds, q)`, where it fits in 64 bits.
fn floor_scaled(ds: &Vec<char>, q: i128) -> (r: Option<u64>)
    requires
        all_digits(ds@),
        -0x8_0000_0000_0000_0000 < q < 0x8_0000_0000_0000_0000,
    ensures
        match r {
            Some(m) => m == scaled_floor(ds@, q as int),
            None => scaled_floor(ds@, q as int) > u64::MAX,
        },
{
    let n = ds.len();
    assert(ds@.subrange(0, n as int) =~= ds@);
    if q >= 0 {
        match parse_digits(ds, 0, n) {
            Some(d) => scale_up(d, q),
            None => {
                proof {
                    lemma_digits_value_nonneg(ds@);
                    lemma_scaled_grows(digits_value(ds@), 0, q as nat);
                }
                None
            },
        }
    } else if (n as i128) + q > 0 {
        let m = ((n as i128) + q) as usize;
        assert(ds@.subrange(0, m as int) =~= ds@.take(m as int));
        proof {
            assert forall|i: int| 0 <= i < m implies is_digit(#[trigger] ds@.take(m as int)[i]) by {
                assert(ds@.take(m as int)[i] == ds@[i]);
            }
        }
        parse_digits(ds, 0, m)
    } else {
        Some(0)
    }
}

/// Parses a number of seconds into milliseconds, rounded down.
pub fn parse_millis(s: &str) -> (r: Option<u64>)
    ensures
        r == parsed_millis(s@),
{
    let v = chars_of(s);
    assert(v@.subrange(0, v@.len() as int) =~= s@);
    match parse_decimal(&v, 0, v.len()) {
        None => None,
        Some((ds, e)) => floor_scaled(&ds, e + 3),
    }
}

/// Parses a frame rate such as `30000/1001` or `29.97`.
pub fn parse_rate(s: &str) -> (r: Option<FrameRate>)
    ensures
        r == parsed_rate(s@),
{
    let v = chars_of(s);
    let n = v.len();
    assert(v@.skip(0) =~= v@);
    let k = find_first(&v, 0, '/');
    proof {
        lemma_first_index_bounds(s@, '/');
    }
    assert(v@.subrange(0, k as int) =~= first_part(s@));
    let (d1, e1) = match parse_decimal(&v, 0, k) {
        None => return None,
        Some(p) => p,
    };
    let (b, e2): (Option<u64>, i128) = if k == n {
        (Some(1), 0)
    } else {
        let k2 = find_first(&v, k + 1, '/');
        let ghost rest = s@.skip(k + 1);
        assert(v@.skip(k + 1) =~= rest);
        assert(v@.subrange(k + 1, k2 as int) =~= second_part(s@));
        match parse_decimal(&v, k + 1, k2) {
            Some((d2, e2)) => {
                assert(d2@.subrange(0, d2@.len() as int) =~= d2@);
                (parse_digits(&d2, 0, d2.len()), e2)
            },
            None => (Some(1), 0),
        }
    };
    let ghost bv: int = if k == n {
        1
    } else {
        match parsed_decimal(second_part(s@)) {
            Some((d2, _)) => digits_value(d2),
            None => 1,
        }
    };
    let b = match b {
        None => {
            proof {
                lemma_scaled_grows(bv, 0, excess(e2 as int, e1 as int));
            }
            return None;
        },
        Some(b) => b,
    };
    if b == 0 {
        return None;
    }
    assert(d1@.subrange(0, d1@.len() as int) =~= d1@);
    let a = match parse_digits(&d1, 0, d1.len()) {
        None => {
            proof {
                lemma_digits_value_nonneg(d1@);
                lemma_scaled_grows(digits_value(d1@), 0, excess(e1 as int, e2 as int));
            }
            return None;
        },
        Some(a) => a,
    };
    let num = match scale_up(a, if e1 > e2 { e1 - e2 } else { 0 }) {
        None => return None,
        Some(x) => x,
    };
    let den = match scale_up(b, if e2 > e1 { e2 - e1 } else { 0 }) {
        None => return None,
        Some(x) => x,
    };
    Some(FrameRate { num, den })
}


/// The container-level facts of an `ffprobe` report (`format` object), as text.
#[derive(Debug, Clone)]
pub struct ProbeFormat {
    pub duration: Option<String>,
    pub bit_rate: Option<String>,
}

/// One stream of an `ffprobe` report, with the fields that planning reads.
#[derive(Debug, Clone)]
pub struct ProbeStream {
    pub codec_type: Option<String>,
    pub codec_name: Option<String>,
    pub width: Option<u64>,
    pub height: Option<u64>,
    pub avg_frame_rate: Option<String>,
    pub r_frame_rate: Option<String>,
    pub duration: Option<String>,
}

/// `parsed_millis` of an optional text.
pub open spec fn opt_millis(o: Option<String>) -> Option<u64> {
    match o {
        Some(s) => parsed_millis(s@),
        None => None,
    }
}

/// `parsed_u64` of an optional text.
pub open spec fn opt_u64(o: Option<String>) -> Option<u64> {
    match o {
        Some(s) => parsed_u64(s@),
        None => None,
    }
}

/// `parsed_rate` of an optional text.
pub open spec fn opt_rate(o: Option<String>) -> Option<FrameRate> {
    match o {
        Some(s) => parsed_rate(s@),
        None => None,
    }
}

/// A pixel count read from the report, cut to 32 bits as an `as u32` cast does.
pub open spec fn opt_dim(o: Option<u64>) -> Option<u32> {
    match o {
        Some(w) => Some(w as u32),
        None => None,
    }
}

/// The frame rate of a video stream: the average rate when positive, else the
/// real base rate.
pub open spec fn stream_rate(st: ProbeStream) -> Option<FrameRate> {
    match opt_rate(st.avg_frame_rate) {
        Some(r) if r.num > 0 => Some(r),
        _ => opt_rate(st.r_frame_rate),
    }
}

/// The media facts after the container-level part of a report.
pub open spec fn with_format(info: MediaInfo, f: Option<ProbeFormat>) -> MediaInfo {
    match f {
        None => info,
        Some(f) => MediaInfo { duration_ms: opt_millis(f.duration), bitrate: opt_u64(f.bit_rate), ..info },
    }
}

/// The media facts after one stream: the first video stream gives dimensions,
/// codec, frame rate (and a duration if none is known yet); any audio stream
/// marks audio present, and the first one names the audio codec.
pub open spec fn with_stream(info: MediaInfo, st: ProbeStream) -> MediaInfo {
    match st.codec_type {
        Some(t) => if t@ == "video"@ && info.width is None {
            MediaInfo {
                width: opt_dim(st.width),
                height: opt_dim(st.height),
                video_codec: st.codec_name,
                fps: stream_rate(st),
                duration_ms: if info.duration_ms is None {
                    opt_millis(st.duration)
                } else {
                    info.duration_ms
                },
                ..info
            }
        } else if t@ == "audio"@ {
            MediaInfo {
                has_audio: true,
                audio_codec: if info.audio_codec is None { st.codec_name } else { info.audio_codec },
                ..info
            }
        } else {
            info
        },
        None => info,
    }
}

/// The media facts after every stream, in report order.
pub open spec fn with_streams(info: MediaInfo, streams: Seq<ProbeStream>) -> MediaInfo
    decreases streams.len(),
{
    if streams.len() == 0 {
        info
    } else {
        with_streams(with_stream(info, streams[0]), streams.skip(1))
    }
}

fn parse_opt_millis(o: &Option<String>) -> (r: Option<u64>)
    ensures
        r == opt_millis(*o),
{
    match o {
        Some(s) => parse_millis(s.as_str()),
        None => None,
    }
}

fn parse_opt_u64(o: &Option<String>) -> (r: Option<u64>)
    ensures
        r == opt_u64(*o),
{
    match o {
        Some(s) => parse_u64(s.as_str()),
        None => None,
    }
}

fn parse_opt_rate(o: &Option<String>) -> (r: Option<FrameRate>)
    ensures
        r == opt_rate(*o),
{
    match o {
        Some(s) => parse_rate(s.as_str()),
        None => None,
    }
}

fn apply_stream(info: MediaInfo, st: ProbeStream) -> (r: MediaInfo)
    ensures
        r == with_stream(info, st),
{
    let mut info = info;
    match &st.codec_type {
        Some(t) => {
            if text_eq(t.as_str(), "video") && info.width.is_none() {
                info.width = match st.width {
                    Some(w) => Some(w as u32),
                    None => None,
                };
                info.height = match st.height {
                    Some(h) => Some(h as u32),
                    None => None,
                };
                let fps = match parse_opt_rate(&st.avg_frame_rate) {
                    Some(r) if r.num > 0 => Some(r),
                    _ => parse_opt_rate(&st.r_frame_rate),
                };
                info.fps = fps;
                if info.duration_ms.is_none() {
                    info.duration_ms = parse_opt_millis(&st.duration);
                }
                info.video_codec = st.codec_name;
            } else if text_eq(t.as_str(), "audio") {
                info.has_audio = true;
                if info.audio_codec.is_none() {
                    info.audio_codec = st.codec_name;
                }
            }
        },
        None => {},
    }
    info
}

impl MediaInfo {
    /// The facts known before any report: the file's path, name, kind (from its
    /// extension) and size.
    pub fn basic(path: &str, size: u64) -> (r: MediaInfo)
        ensures
            r.path@ == path@,
            match file_name(path@) {
                Some(n) => r.name@ == n,
                None => r.name@ == Seq::<char>::empty(),
            },
            r.kind == kind_of_ext(ext_lower(path@)),
            r.size == size,
            r.duration_ms is None,
            r.width is None,
            r.height is None,
            r.fps is None,
            !r.has_audio,
            r.video_codec is None,
            r.audio_codec is None,
            r.bitrate is None,
    {
        MediaInfo {
            path: String::from_str(path),
            name: match path_file_name(path) {
                Some(n) => n,
                None => String::new(),
            },
            kind: kind_from_ext(path),
            size,
            duration_ms: None,
            width: None,
            height: None,
            fps: None,
            has_audio: false,
            video_codec: None,
            audio_codec: None,
            bitrate: None,
        }
    }

    /// Whether an `ffprobe` report is wanted: not for PDFs and unknown files, whose
    /// basic facts are final.
    pub fn needs_probe(&self) -> (r: bool)
        ensures
            r == !(self.kind == MediaKind::Pdf || self.kind == MediaKind::Unknown),
    {
        !(self.kind == MediaKind::Pdf || self.kind == MediaKind::Unknown)
    }

    /// Records the pixel dimensions of an image read from its header.
    pub fn with_dimensions(self, w: u32, h: u32) -> (r: MediaInfo)
        ensures
            r == (MediaInfo { width: Some(w), height: Some(h), ..self }),
    {
        let mut s = self;
        s.width = Some(w);
        s.height = Some(h);
        s
    }

    /// Merges an `ffprobe` report: the container part first, then each stream in order.
    pub fn apply_probe(self, format: Option<ProbeFormat>, streams: Vec<ProbeStream>) -> (r: MediaInfo)
        ensures
            r == with_streams(with_format(self, format), streams@),
    {
        let mut info = self;
        match format {
            Some(f) => {
                info.duration_ms = parse_opt_millis(&f.duration);
                info.bitrate = parse_opt_u64(&f.bit_rate);
            },
            None => {},
        }
        let ghost start = info;
        let ghost all = streams@;
        let mut streams = streams;
        let mut i: usize = 0;
        let total = streams.len();
        assert(all.skip(0) =~= all);
        while streams.len() > 0
            invariant
                i + streams@.len() == all.len(),
                all.len() == total,
                streams@ == all.skip(i as int),
                with_streams(info, all.skip(i as int)) == with_streams(start, all),
            decreases streams@.len(),
        {
            let st = streams.remove(0);
            assert(all.skip(i as int).skip(1) =~= all.skip(i + 1));
            info = apply_stream(info, st);
            i = i + 1;
            assert(streams@ =~= all.skip(i as int));
        }
        assert(all.skip(i as int) =~= Seq::<ProbeStream>::empty());
        info
    }
}


/// What `ffprobe -print_format json -show_format -show_streams` reported in
/// `json`: the `format` object and the `streams` array, each read field by
/// field; `None` where the bytes are no JSON document.
pub uninterp spec fn ffprobe_report(json: Seq<u8>) -> Option<(Option<ProbeFormat>, Seq<ProbeStream>)>;

/// Reads an `ffprobe` JSON report with `serde_json::from_slice` into a
/// `serde_json::Value`, then takes `format.duration`, `format.bit_rate` and, for
/// each element of `streams`, its text fields and its `width` / `height` as
/// unsigned integers; a missing or mistyped field reads as `None`, a missing
/// `streams` array as no stream. Trusted: the result is `ffprobe_report` of the
/// bytes, an error exactly where `serde_json` refuses them; the error's text is
/// `serde_json`'s own and is not stated.
#[verifier::external_body]
fn parse_ffprobe_json(json: &Vec<u8>) -> (r: Result<(Option<ProbeFormat>, Vec<ProbeStream>), String>)
    ensures
        match r {
            Ok((f, st)) => ffprobe_report(json@) == Some((f, st@)),
            Err(_) => ffprobe_report(json@) is None,
        },
{
    let v: serde_json::Value = serde_json::from_slice(json).map_err(|e| e.to_string())?;
    let t = |x: &serde_json::Value, k: &str| x[k].as_str().map(String::from);
    let streams = v["streams"].as_array().map(|a| a.iter().map(|x| ProbeStream {
        codec_type: t(x, "codec_type"), codec_name: t(x, "codec_name"),
        width: x["width"].as_u64(), height: x["height"].as_u64(),
        avg_frame_rate: t(x, "avg_frame_rate"), r_frame_rate: t(x, "r_frame_rate"), duration: t(x, "duration"),
    }).collect()).unwrap_or_default();
    Ok((v.get("format").map(|f| ProbeFormat { duration: t(f, "duration"), bit_rate: t(f, "bit_rate") }), streams))
}

/// Merges the `ffprobe` JSON report `json` into `info`: the `format` object
/// first, then each stream in order; an error where the bytes are no JSON.
pub fn probe_report(info: MediaInfo, json: &Vec<u8>) -> (r: Result<MediaInfo, String>)
    ensures
        match ffprobe_report(json@) {
            Some((f, st)) => r matches Ok(m) && m == with_streams(with_format(info, f), st),
            None => r is Err,
        },
{
    match parse_ffprobe_json(json) {
        Ok((format, streams)) => Ok(info.apply_probe(format, streams)),
        Err(e) => Err(e),
    }
}

/// A copy of an optional string.
pub fn dup_opt(o: &Option<String>) -> (r: Option<String>)
    ensures
        r == *o,
{
    match o {
        Some(s) => Some(s.clone()),
        None => None,
    }
}

impl MediaInfo {
    /// An identical copy.
    pub fn dup(&self) -> (r: MediaInfo)
        ensures
            r == *self,
    {
        MediaInfo {
            path: self.path.clone(),
            name: self.name.clone(),
            kind: self.kind,
            size: self.size,
            duration_ms: self.duration_ms,
            width: self.width,
            height: self.height,
            fps: self.fps,
            has_audio: self.has_audio,
            video_codec: dup_opt(&self.video_codec),
            audio_codec: dup_opt(&self.audio_codec),
            bitrate: self.bitrate,
        }
    }
}

proof fn lemma_digit_value_of(k: int)
    requires
        0 <= k < 10,
    ensures
        digit_value(digit_char(k)) == k,
        is_digit(digit_char(k)),
{
}

/// A decimal numeral holds digits only, and its value is the number it was written from.
proof fn lemma_decimal_value(n: nat)
    ensures
        all_digits(decimal(n)),
        decimal(n).len() >= 1,
        digits_value(decimal(n)) == n,
    decreases n,
{
    lemma_decimal_shape(n);
    if n >= 10 {
        lemma_decimal_value(n / 10);
        let d = decimal(n);
        assert(d.drop_last() =~= decimal(n / 10));
        assert(d.last() == digit_char((n % 10) as int));
        lemma_digit_value_of((n % 10) as int);
        assert((n / 10) * 10 + n % 10 == n) by (nonlinear_arith);
        assert(digits_value(d) == digits_value(decimal(n / 10)) * 10 + digit_value(d.last()));
    } else {
        lemma_digit_value_of(n as int);
        assert(decimal(n).drop_last() =~= Seq::<char>::empty());
        assert(digits_value(Seq::<char>::empty()) == 0);
        assert(decimal(n).last() == digit_char(n as int));
    }
}

/// The first `c` in `a + b` is right after `a` when `a` holds none and `b` starts with one.
proof fn lemma_first_index_after(a: Seq<char>, b: Seq<char>, c: char)
    requires
        forall|i: int| 0 <= i < a.len() ==> a[i] != c,
        b.len() > 0,
        b[0] == c,
    ensures
        first_index(a + b, c) == a.len(),
    decreases a.len(),
{
    if a.len() > 0 {
        assert((a + b).skip(1) =~= a.skip(1) + b);
        lemma_first_index_after(a.skip(1), b, c);
    } else {
        assert(a + b =~= b);
    }
}

/// A number printed in decimal reads back as the same number.
pub proof fn law_decimal_round_trip(n: u64)
    ensures
        parsed_u64(decimal(n as nat)) == Some(n),
{
    lemma_decimal_value(n as nat);
    let d = decimal(n as nat);
    assert(is_digit(d[0]));
}

/// A duration written as seconds with three decimals (as FFmpeg's `-ss` and
/// `-t` arguments are) reads back as the same number of milliseconds.
pub proof fn law_seconds_round_trip(ms: u64)
    ensures
        parsed_millis(seconds3(ms as nat)) == Some(ms),
{
    let q = (ms / 1000) as nat;
    let ip = decimal(q);
    let fp = seq![
        digit_char(((ms % 1000) / 100) as int),
        digit_char(((ms % 100) / 10) as int),
        digit_char((ms % 10) as int),
    ];
    let t = seconds3(ms as nat);
    lemma_decimal_value(q);
    assert(t =~= ip + (seq!['.'] + fp));
    assert forall|i: int| 0 <= i < ip.len() implies ip[i] != '.' by {
        assert(is_digit(ip[i]));
    }
    lemma_first_index_after(ip, seq!['.'] + fp, '.');
    assert forall|i: int| 0 <= i < t.len() implies t[i] != 'e' && t[i] != 'E' by {
        if i < ip.len() {
            assert(t[i] == ip[i]);
            assert(is_digit(ip[i]));
        }
    }
    lemma_no_exp(t);
    assert(t.take(t.len() as int) =~= t);
    assert(t.take(ip.len() as int) =~= ip);
    assert(t.skip(ip.len() as int + 1) =~= fp);
    lemma_digit_value_of(((ms % 1000) / 100) as int);
    lemma_digit_value_of(((ms % 100) / 10) as int);
    lemma_digit_value_of((ms % 10) as int);
    assert(fp.drop_last().drop_last().drop_last() =~= Seq::<char>::empty());
    assert(digits_value(fp) == ((ms % 1000) / 100) * 100 + ((ms % 100) / 10) * 10 + ms % 10) by {
        reveal_with_fuel(digits_value, 4);
        assert(fp.drop_last() =~= seq![fp[0], fp[1]]);
        assert(fp.drop_last().drop_last() =~= seq![fp[0]]);
    }
    assert(((ms % 1000) / 100) * 100 + ((ms % 100) / 10) * 10 + ms % 10 == ms % 1000) by (nonlinear_arith);
    assert(all_digits(fp));
    lemma_digits_value_concat(ip, fp);
    assert(pow10(3) == 1000) by {
        reveal_with_fuel(pow10, 4);
    }
    assert(pow10(0) == 1);
    assert(q * 1000 + ms % 1000 == ms) by (nonlinear_arith)
        requires
            q == ms / 1000,
    ;
    let dv = digits_value(ip + fp);
    assert(dv * pow10(0) == dv) by (nonlinear_arith)
        requires
            pow10(0) == 1,
    ;
}

/// A text without exponent marks has none to find.
proof fn lemma_no_exp(s: Seq<char>)
    requires
        forall|i: int| 0 <= i < s.len() ==> s[i] != 'e' && s[i] != 'E',
    ensures
        first_exp(s) == s.len(),
    decreases s.len(),
{
    if s.len() > 0 {
        assert(s[0] != 'e' && s[0] != 'E');
        assert forall|i: int| 0 <= i < s.skip(1).len() implies s.skip(1)[i] != 'e' && s.skip(1)[i] != 'E' by {
            assert(s.skip(1)[i] == s[i + 1]);
        }
        lemma_no_exp(s.skip(1));
    }
}

/// The value of digits written one after the other.
proof fn lemma_digits_value_concat(a: Seq<char>, b: Seq<char>)
    ensures
        digits_value(a + b) == digits_value(a) * pow10(b.len()) + digits_value(b),
    decreases b.len(),
{
    if b.len() == 0 {
        assert(a + b =~= a);
        let av = digits_value(a);
        assert(pow10(0) == 1);
        assert(av * pow10(0) == av) by (nonlinear_arith)
            requires
                pow10(0) == 1,
        ;
    } else {
        let b1 = b.drop_last();
        lemma_digits_value_concat(a, b1);
        assert((a + b).drop_last() =~= a + b1);
        assert((a + b).last() == b.last());
        let av = digits_value(a);
        let p = pow10(b1.len()) as int;
        let bv = digits_value(b1);
        let l = digit_value(b.last());
        assert(pow10(b.len()) == 10 * pow10(b1.len()));
        assert((av * p + bv) * 10 + l == av * (10 * p) + (bv * 10 + l)) by (nonlinear_arith);
    }
}

} // verus!
