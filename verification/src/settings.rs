//! The plain-text settings record of an asset: space-separated ASCII fields
//! `grid_size scale mode base_tile_size packed_offset_x packed_offset_y
//! packed_size_x packed_size_y`.
//!
//! The scale is an IEEE float written in decimal by the saver. The record
//! logic never interprets it: the token is carried verbatim (which is what
//! makes the round-trip exact) and the host turns it into a float at the
//! edge.

use vstd::prelude::*;

use crate::error::ImposterError;
use crate::oct_coords::GridMode;

verus! {

pub const SPACE: u8 = 32;

/// The decimal digits of a nonnegative number, most significant first.
pub open spec fn dec_digits(n: int) -> Seq<u8>
    decreases n,
{
    if n < 10 {
        seq![(n + 48) as u8]
    } else {
        dec_digits(n / 10).push(((n % 10) + 48) as u8)
    }
}

pub open spec fn is_digits(s: Seq<u8>) -> bool {
    s.len() >= 1 && forall|i: int| 0 <= i < s.len() ==> 48 <= #[trigger] s[i] <= 57
}

/// Numeric value of a digit string.
pub open spec fn digits_val(s: Seq<u8>) -> int
    decreases s.len(),
{
    if s.len() == 0 {
        0int
    } else {
        digits_val(s.drop_last()) * 10 + (s.last() - 48)
    }
}

/// What `u32::from_str` accepts: an optional leading plus sign, then one or
/// more digits, with a value that fits.
pub open spec fn spec_parse_u32(s: Seq<u8>) -> Option<u32> {
    let t = if s.len() >= 1 && s[0] == 43 { s.skip(1) } else { s };
    if is_digits(t) && digits_val(t) <= u32::MAX {
        Some(digits_val(t) as u32)
    } else {
        None
    }
}

pub proof fn lemma_dec_digits_are_digits(n: int)
    requires
        n >= 0,
    ensures
        is_digits(dec_digits(n)),
    decreases n,
{
    if n < 10 {
        assert(dec_digits(n) == seq![(n + 48) as u8]);
        assert(dec_digits(n)[0] == (n + 48) as u8);
    } else {
        lemma_dec_digits_are_digits(n / 10);
        assert(dec_digits(n) == dec_digits(n / 10).push(((n % 10) + 48) as u8));
        assert forall|i: int| 0 <= i < dec_digits(n).len() implies 48 <= #[trigger] dec_digits(
            n,
        )[i] <= 57 by {
            if i < dec_digits(n / 10).len() {
                assert(dec_digits(n)[i] == dec_digits(n / 10)[i]);
            } else {
                assert(dec_digits(n)[i] == ((n % 10) + 48) as u8);
            }
        }
    }
}

pub proof fn lemma_dec_digits_value(n: int)
    requires
        n >= 0,
    ensures
        digits_val(dec_digits(n)) == n,
    decreases n,
{
    if n < 10 {
        assert(dec_digits(n) == seq![(n + 48) as u8]);
        assert(dec_digits(n).drop_last() =~= Seq::<u8>::empty());
        assert(digits_val(Seq::<u8>::empty()) == 0);
        assert(dec_digits(n).last() == (n + 48) as u8);
    } else {
        lemma_dec_digits_value(n / 10);
        assert(dec_digits(n).drop_last() =~= dec_digits(n / 10));
    }
}

/// Formatting a number gives a token that parses back to it.
pub proof fn lemma_dec_digits_parse(n: u32)
    ensures
        spec_parse_u32(dec_digits(n as int)) == Some(n),
{
    lemma_dec_digits_are_digits(n as int);
    lemma_dec_digits_value(n as int);
    assert(dec_digits(n as int)[0] != 43);
}

/// Append the decimal digits of `n`.
pub fn push_decimal(out: &mut Vec<u8>, n: u32)
    ensures
        final(out)@ == old(out)@ + dec_digits(n as int),
    decreases n,
{
    if n < 10 {
        out.push((n as u8) + 48);
        proof {
            assert(final(out)@ =~= old(out)@ + dec_digits(n as int));
        }
    } else {
        push_decimal(out, n / 10);
        out.push(((n % 10) as u8) + 48);
        proof {
            assert(final(out)@ =~= old(out)@ + dec_digits(n as int));
        }
    }
}

proof fn lemma_digits_val_nonneg(s: Seq<u8>)
    requires
        forall|i: int| 0 <= i < s.len() ==> 48 <= #[trigger] s[i],
    ensures
        digits_val(s) >= 0,
    decreases s.len(),
{
    if s.len() > 0 {
        lemma_digits_val_nonneg(s.drop_last());
    }
}

proof fn lemma_digits_val_take_step(s: Seq<u8>, j: int)
    requires
        0 <= j < s.len(),
    ensures
        digits_val(s.take(j + 1)) == digits_val(s.take(j)) * 10 + (s[j] - 48),
    decreases s.len(),
{
    assert(s.take(j + 1).drop_last() =~= s.take(j));
    assert(s.take(j + 1).last() == s[j]);
}

proof fn lemma_digits_val_prefix_mono(s: Seq<u8>, j: int)
    requires
        0 <= j <= s.len(),
        forall|i: int| 0 <= i < s.len() ==> 48 <= #[trigger] s[i] <= 57,
    ensures
        digits_val(s.take(j)) <= digits_val(s),
    decreases s.len() - j,
{
    if j == s.len() {
        assert(s.take(j) =~= s);
    } else {
        lemma_digits_val_take_step(s, j);
        lemma_digits_val_nonneg(s.take(j));
        assert(forall|i: int| 0 <= i < s.take(j).len() ==> 48 <= #[trigger] s.take(j)[i]);
        lemma_digits_val_prefix_mono(s, j + 1);
    }
}

/// Parse a token the way `u32::from_str` does: optional plus sign, then
/// digits, rejecting overflow and anything else.
pub fn parse_u32_token(t: &Vec<u8>) -> (r: Option<u32>)
    ensures
        r == spec_parse_u32(t@),
{
    let len: usize = t.len();
    let start: usize = if len >= 1 && t[0] == 43 {
        1
    } else {
        0
    };
    let ghost digits = if t@.len() >= 1 && t@[0] == 43 { t@.skip(1) } else { t@ };
    proof {
        assert(digits.len() == len - start);
        assert(forall|i: int| 0 <= i < digits.len() ==> digits[i] == t@[i + start]);
    }
    if start == len {
        return None;
    }
    let mut acc: u64 = 0;
    let mut i: usize = start;
    while i < len
        invariant
            start <= i <= len,
            len == t@.len(),
            start == 0 || start == 1,
            digits == (if t@.len() >= 1 && t@[0] == 43 { t@.skip(1) } else { t@ }),
            digits.len() == len - start,
            forall|j: int| 0 <= j < digits.len() ==> digits[j] == t@[j + start],
            forall|j: int| 0 <= j < i - start ==> 48 <= #[trigger] digits[j] <= 57,
            acc == digits_val(digits.take(i - start)),
            acc <= u32::MAX,
        decreases len - i,
    {
        let b: u8 = t[i];
        if b < 48 || b > 57 {
            proof {
                assert(digits[i - start] == b);
                assert(!is_digits(digits));
            }
            return None;
        }
        proof {
            lemma_digits_val_take_step(digits, i - start);
        }
        acc = acc * 10 + ((b - 48) as u64);
        if acc > 0xffff_ffff {
            proof {
                let k = i + 1 - start;
                assert(digits.take(k).len() == k);
                assert(forall|j: int| 0 <= j < digits.take(k).len() ==> 48 <= #[trigger] digits.take(k)[j] <= 57);
                if is_digits(digits) {
                    lemma_digits_val_prefix_mono(digits, k);
                    assert(digits_val(digits) > u32::MAX);
                }
            }
            return None;
        }
        i = i + 1;
    }
    proof {
        assert(digits.take(len - start) =~= digits);
        assert(is_digits(digits));
    }
    Some(acc as u32)
}

/// The exact name of a mode in the settings record.
pub open spec fn spec_mode_name(m: GridMode) -> Seq<u8> {
    match m {
        GridMode::Spherical => seq![115u8, 112, 104, 101, 114, 105, 99, 97, 108],
        GridMode::Hemispherical => seq![
            104u8,
            101,
            109,
            105,
            115,
            112,
            104,
            101,
            114,
            105,
            99,
            97,
            108,
        ],
        GridMode::Horizontal => seq![72u8, 111, 114, 105, 122, 111, 110, 116, 97, 108],
    }
}

pub open spec fn spec_parse_mode(t: Seq<u8>) -> Option<GridMode> {
    if t == spec_mode_name(GridMode::Spherical) {
        Some(GridMode::Spherical)
    } else if t == spec_mode_name(GridMode::Hemispherical) {
        Some(GridMode::Hemispherical)
    } else if t == spec_mode_name(GridMode::Horizontal) {
        Some(GridMode::Horizontal)
    } else {
        None
    }
}

/// Append a mode's name.
pub fn push_mode_name(out: &mut Vec<u8>, m: GridMode)
    ensures
        final(out)@ == old(out)@ + spec_mode_name(m),
{
    match m {
        GridMode::Spherical => {
            out.push(115);
            out.push(112);
            out.push(104);
            out.push(101);
            out.push(114);
            out.push(105);
            out.push(99);
            out.push(97);
            out.push(108);
        },
        GridMode::Hemispherical => {
            out.push(104);
            out.push(101);
            out.push(109);
            out.push(105);
            out.push(115);
            out.push(112);
            out.push(104);
            out.push(101);
            out.push(114);
            out.push(105);
            out.push(99);
            out.push(97);
            out.push(108);
        },
        GridMode::Horizontal => {
            out.push(72);
            out.push(111);
            out.push(114);
            out.push(105);
            out.push(122);
            out.push(111);
            out.push(110);
            out.push(116);
            out.push(97);
            out.push(108);
        },
    }
    proof {
        assert(final(out)@ =~= old(out)@ + spec_mode_name(m));
    }
}

fn token_eq_name(t: &Vec<u8>, m: GridMode) -> (r: bool)
    ensures
        r == (t@ == spec_mode_name(m)),
{
    let name_len: usize = match m {
        GridMode::Spherical => 9,
        GridMode::Hemispherical => 13,
        GridMode::Horizontal => 10,
    };
    if t.len() != name_len {
        proof {
            assert(t@ != spec_mode_name(m));
        }
        return false;
    }
    let mut probe: Vec<u8> = Vec::new();
    push_mode_name(&mut probe, m);
    let mut i: usize = 0;
    while i < name_len
        invariant
            t@.len() == name_len,
            probe@ == spec_mode_name(m),
            probe@.len() == name_len,
            i <= name_len,
            forall|j: int| 0 <= j < i ==> t@[j] == probe@[j],
        decreases name_len - i,
    {
        if t[i] != probe[i] {
            proof {
                assert(t@ != spec_mode_name(m));
            }
            return false;
        }
        i = i + 1;
    }
    proof {
        assert(t@ =~= spec_mode_name(m));
    }
    true
}

/// Recognize a mode name.
pub fn parse_mode_token(t: &Vec<u8>) -> (r: Option<GridMode>)
    ensures
        r == spec_parse_mode(t@),
{
    if token_eq_name(t, GridMode::Spherical) {
        Some(GridMode::Spherical)
    } else if token_eq_name(t, GridMode::Hemispherical) {
        Some(GridMode::Hemispherical)
    } else if token_eq_name(t, GridMode::Horizontal) {
        Some(GridMode::Horizontal)
    } else {
        None
    }
}

/// Index of the first space at or after `i`, or the length if none.
pub open spec fn find_space(s: Seq<u8>, i: int) -> int
    decreases s.len() - i,
{
    if i < 0 || i >= s.len() {
        s.len() as int
    } else if s[i] == SPACE {
        i
    } else {
        find_space(s, i + 1)
    }
}

/// The fields of the suffix of `s` that starts at `pos`, split on single
/// spaces. Consecutive spaces yield empty fields, exactly as splitting a
/// string on one space character does.
pub open spec fn split_from(s: Seq<u8>, pos: int) -> Seq<Seq<u8>>
    decreases s.len() - pos,
{
    let j = find_space(s, pos);
    if pos < 0 || j < pos || j >= s.len() {
        seq![s.subrange(pos, s.len() as int)]
    } else {
        seq![s.subrange(pos, j)] + split_from(s, j + 1)
    }
}

pub open spec fn split_spaces(s: Seq<u8>) -> Seq<Seq<u8>> {
    split_from(s, 0)
}

proof fn lemma_find_space_at(s: Seq<u8>, i: int, k: int)
    requires
        0 <= i <= k <= s.len(),
        forall|j: int| i <= j < k ==> s[j] != SPACE,
        k == s.len() || s[k] == SPACE,
    ensures
        find_space(s, i) == k,
    decreases k - i,
{
    if i < k {
        lemma_find_space_at(s, i + 1, k);
    }
}

/// Peel the first field off the suffix at `pos`: when the bytes from `pos`
/// up to `next` are a space-free token followed by a space or the end, the
/// split starts with that token.
pub proof fn lemma_split_peel(s: Seq<u8>, pos: int, tok: Seq<u8>, next: int)
    requires
        0 <= pos,
        next == pos + tok.len(),
        next <= s.len(),
        forall|j: int| 0 <= j < tok.len() ==> #[trigger] tok[j] != SPACE,
        s.subrange(pos, next) == tok,
        next == s.len() || s[next] == SPACE,
    ensures
        next == s.len() ==> split_from(s, pos) == seq![tok],
        next < s.len() ==> split_from(s, pos) == seq![tok] + split_from(s, next + 1),
{
    assert forall|j: int| pos <= j < next implies s[j] != SPACE by {
        assert(tok[j - pos] == s[j]);
    }
    lemma_find_space_at(s, pos, next);
    assert(s.subrange(pos, next) == tok);
}

/// Split a byte string on spaces.
pub fn split_tokens(bytes: &Vec<u8>) -> (r: Vec<Vec<u8>>)
    ensures
        deep_view(r@) == split_spaces(bytes@),
{
    let len: usize = bytes.len();
    let mut tokens: Vec<Vec<u8>> = Vec::new();
    let mut pos: usize = 0;
    proof {
        assert(deep_view(tokens@) + split_from(bytes@, 0) =~= split_from(bytes@, 0));
    }
    loop
        invariant_except_break
            split_spaces(bytes@) == deep_view(tokens@) + split_from(bytes@, pos as int),
        invariant
            pos <= len,
            len == bytes@.len(),
        ensures
            deep_view(tokens@) == split_spaces(bytes@),
        decreases len - pos,
    {
        let mut j: usize = pos;
        while j < len && bytes[j] != SPACE
            invariant
                pos <= j <= len,
                len == bytes@.len(),
                forall|q: int| pos <= q < j ==> bytes@[q] != SPACE,
            decreases len - j,
        {
            j = j + 1;
        }
        proof {
            lemma_find_space_at(bytes@, pos as int, j as int);
        }
        let mut tok: Vec<u8> = Vec::new();
        let mut q: usize = pos;
        while q < j
            invariant
                pos <= q <= j <= len,
                len == bytes@.len(),
                tok@.len() == q - pos,
                forall|p: int| 0 <= p < tok@.len() ==> tok@[p] == bytes@[p + pos],
            decreases j - q,
        {
            let b: u8 = bytes[q];
            tok.push(b);
            q = q + 1;
        }
        proof {
            assert(tok@ =~= bytes@.subrange(pos as int, j as int));
        }
        let ghost toks_before = tokens@;
        tokens.push(tok);
        proof {
            assert(deep_view(tokens@) =~= deep_view(toks_before).push(tok@));
        }
        if j == len {
            proof {
                assert(split_from(bytes@, pos as int) == seq![tok@]);
                assert(deep_view(toks_before) + split_from(bytes@, pos as int) =~= deep_view(
                    tokens@,
                ));
            }
            break;
        }
        proof {
            assert(split_from(bytes@, pos as int) == seq![tok@] + split_from(bytes@, j + 1));
            assert(deep_view(toks_before) + split_from(bytes@, pos as int) =~= deep_view(tokens@)
                + split_from(bytes@, j + 1));
        }
        pos = j + 1;
    }
    tokens
}

pub open spec fn deep_view(ts: Seq<Vec<u8>>) -> Seq<Seq<u8>> {
    ts.map_values(|t: Vec<u8>| t@)
}

proof fn lemma_find_nondigit_at(s: Seq<u8>, i: int, k: int)
    requires
        0 <= i <= k <= s.len(),
        forall|j: int| i <= j < k ==> 48 <= #[trigger] s[j] <= 57,
        k == s.len() || !(48 <= s[k] <= 57),
    ensures
        find_nondigit(s, i) == k,
    decreases k - i,
{
    if i < k {
        lemma_find_nondigit_at(s, i + 1, k);
    }
}

/// Index of the first non-digit byte at or after `from`.
fn scan_digits(t: &Vec<u8>, from: usize) -> (r: usize)
    requires
        from <= t@.len(),
    ensures
        r == find_nondigit(t@, from as int),
        from <= r <= t@.len(),
{
    let len: usize = t.len();
    let mut j: usize = from;
    while j < len && 48 <= t[j] && t[j] <= 57
        invariant
            from <= j <= len,
            len == t@.len(),
            forall|q: int| from <= q < j ==> 48 <= #[trigger] t@[q] <= 57,
        decreases len - j,
    {
        j = j + 1;
    }
    proof {
        lemma_find_nondigit_at(t@, from as int, j as int);
    }
    j
}

fn matches_ci(body: &Vec<u8>, probe: &Vec<u8>) -> (r: bool)
    ensures
        r == is_ci_word(body@, probe@),
{
    if body.len() != probe.len() {
        return false;
    }
    let len: usize = body.len();
    let mut i: usize = 0;
    while i < len
        invariant
            i <= len,
            len == body@.len(),
            len == probe@.len(),
            forall|q: int| 0 <= q < i ==> ascii_lower(#[trigger] body@[q]) == probe@[q],
        decreases len - i,
    {
        let b: u8 = body[i];
        let lb: u8 = if 65 <= b && b <= 90 {
            b + 32
        } else {
            b
        };
        if lb != probe[i] {
            proof {
                assert(ascii_lower(body@[i as int]) != probe@[i as int]);
            }
            return false;
        }
        i = i + 1;
    }
    true
}

fn number_body_ok(body: &Vec<u8>) -> (r: bool)
    ensures
        r == is_number_body(body@),
{
    let len: usize = body.len();
    let p1 = scan_digits(body, 0);
    let has_dot = p1 < len && body[p1] == 46;
    let p2 = if has_dot {
        scan_digits(body, p1 + 1)
    } else {
        p1
    };
    let digit_count: usize = if has_dot {
        p1 + (p2 - (p1 + 1))
    } else {
        p1
    };
    if digit_count < 1 {
        return false;
    }
    if p2 == len {
        return true;
    }
    let c: u8 = body[p2];
    if c != 101 && c != 69 {
        return false;
    }
    let q: usize = if p2 + 1 < len && (body[p2 + 1] == 43 || body[p2 + 1] == 45) {
        p2 + 2
    } else {
        p2 + 1
    };
    if q >= len {
        return false;
    }
    let e = scan_digits(body, q);
    e == len
}

/// Whether a token matches the float grammar that parsing the scale as an
/// IEEE number at load time accepts.
pub fn scale_token_is_float(t: &Vec<u8>) -> (r: bool)
    ensures
        r == is_float_token(t@),
{
    let len: usize = t.len();
    let start: usize = if len >= 1 && (t[0] == 43 || t[0] == 45) {
        1
    } else {
        0
    };
    let mut body: Vec<u8> = Vec::new();
    let mut q: usize = start;
    while q < len
        invariant
            start <= q <= len,
            len == t@.len(),
            body@.len() == q - start,
            forall|p: int| 0 <= p < body@.len() ==> #[trigger] body@[p] == t@[p + start],
        decreases len - q,
    {
        let b: u8 = t[q];
        body.push(b);
        q = q + 1;
    }
    proof {
        if start == 1 {
            assert(body@ =~= t@.skip(1));
        } else {
            assert(body@ =~= t@);
        }
    }
    let mut w_inf: Vec<u8> = Vec::new();
    w_inf.push(105);
    w_inf.push(110);
    w_inf.push(102);
    let mut w_infinity: Vec<u8> = Vec::new();
    w_infinity.push(105);
    w_infinity.push(110);
    w_infinity.push(102);
    w_infinity.push(105);
    w_infinity.push(110);
    w_infinity.push(105);
    w_infinity.push(116);
    w_infinity.push(121);
    let mut w_nan: Vec<u8> = Vec::new();
    w_nan.push(110);
    w_nan.push(97);
    w_nan.push(110);
    proof {
        assert(w_inf@ =~= seq![105u8, 110, 102]);
        assert(w_infinity@ =~= seq![105u8, 110, 102, 105, 110, 105, 116, 121]);
        assert(w_nan@ =~= seq![110u8, 97, 110]);
    }
    if matches_ci(&body, &w_inf) {
        return true;
    }
    if matches_ci(&body, &w_infinity) {
        return true;
    }
    if matches_ci(&body, &w_nan) {
        return true;
    }
    number_body_ok(&body)
}

/// A float-shaped token is never empty.
pub proof fn lemma_float_token_nonempty(s: Seq<u8>)
    requires
        is_float_token(s),
    ensures
        s.len() >= 1,
{
    if s.len() == 0 {
        assert(find_nondigit(s, 0) == 0);
        assert(!is_number_body(s));
        assert(false);
    }
}

/// The mathematical content of a settings record.
pub struct SettingsView {
    pub grid_size: u32,
    pub scale_token: Seq<u8>,
    pub mode: GridMode,
    pub base_tile_size: u32,
    pub packed_offset_x: u32,
    pub packed_offset_y: u32,
    pub packed_size_x: u32,
    pub packed_size_y: u32,
}

/// The settings record of an asset. The scale field is the decimal token of
/// the capture radius, kept verbatim.
#[derive(Clone, Debug)]
pub struct AssetSettings {
    pub grid_size: u32,
    pub scale_token: Vec<u8>,
    pub mode: GridMode,
    pub base_tile_size: u32,
    pub packed_offset_x: u32,
    pub packed_offset_y: u32,
    pub packed_size_x: u32,
    pub packed_size_y: u32,
}

impl View for AssetSettings {
    type V = SettingsView;

    open spec fn view(&self) -> SettingsView {
        SettingsView {
            grid_size: self.grid_size,
            scale_token: self.scale_token@,
            mode: self.mode,
            base_tile_size: self.base_tile_size,
            packed_offset_x: self.packed_offset_x,
            packed_offset_y: self.packed_offset_y,
            packed_size_x: self.packed_size_x,
            packed_size_y: self.packed_size_y,
        }
    }
}

/// A scale token that can stand in the record: nonempty and without spaces.
pub open spec fn scale_token_wf(t: Seq<u8>) -> bool {
    t.len() >= 1 && forall|j: int| 0 <= j < t.len() ==> #[trigger] t[j] != SPACE
}

/// ASCII letters folded to lower case; everything else unchanged.
pub open spec fn ascii_lower(b: u8) -> u8 {
    if 65 <= b <= 90 {
        (b + 32) as u8
    } else {
        b
    }
}

/// The bytes spell `w` (already lower-case) up to ASCII case.
pub open spec fn is_ci_word(s: Seq<u8>, w: Seq<u8>) -> bool {
    s.len() == w.len() && forall|i: int| 0 <= i < s.len() ==> ascii_lower(#[trigger] s[i]) == w[i]
}

/// Index of the first non-digit byte at or after `i`, or the length.
pub open spec fn find_nondigit(s: Seq<u8>, i: int) -> int
    decreases s.len() - i,
{
    if i < 0 || i >= s.len() {
        s.len() as int
    } else if 48 <= s[i] <= 57 {
        find_nondigit(s, i + 1)
    } else {
        i
    }
}

/// An exponent part starting at `i`: an `e` or `E`, an optional sign, then
/// one or more digits reaching the end.
pub open spec fn is_exponent(s: Seq<u8>, i: int) -> bool {
    &&& i < s.len()
    &&& (s[i] == 101 || s[i] == 69)
    &&& ({
        let q = if i + 1 < s.len() && (s[i + 1] == 43 || s[i + 1] == 45) {
            i + 2
        } else {
            i + 1
        };
        q < s.len() && find_nondigit(s, q) == s.len()
    })
}

/// A decimal number: digits with an optional point and fraction (at least
/// one digit on either side of the point), then an optional exponent.
pub open spec fn is_number_body(s: Seq<u8>) -> bool {
    let p1 = find_nondigit(s, 0);
    let has_dot = p1 < s.len() && s[p1] == 46;
    let p2 = if has_dot {
        find_nondigit(s, p1 + 1)
    } else {
        p1
    };
    let digit_count = p1 + (if has_dot {
        p2 - (p1 + 1)
    } else {
        0int
    });
    &&& digit_count >= 1
    &&& (p2 == s.len() || is_exponent(s, p2))
}

/// What `f32::from_str` accepts after the optional sign: one of the special
/// words, case-insensitively, or a decimal number.
pub open spec fn is_float_body(s: Seq<u8>) -> bool {
    ||| is_ci_word(s, seq![105u8, 110, 102])
    ||| is_ci_word(s, seq![105u8, 110, 102, 105, 110, 105, 116, 121])
    ||| is_ci_word(s, seq![110u8, 97, 110])
    ||| is_number_body(s)
}

/// The grammar `f32::from_str` accepts: an optional sign, then an infinity
/// or not-a-number word or a decimal number. A scale token must match it,
/// exactly as the float parse at load time would demand.
pub open spec fn is_float_token(s: Seq<u8>) -> bool {
    if s.len() >= 1 && (s[0] == 43 || s[0] == 45) {
        is_float_body(s.skip(1))
    } else {
        is_float_body(s)
    }
}

impl AssetSettings {
    pub open spec fn wf(self) -> bool {
        scale_token_wf(self.scale_token@)
    }
}

/// The serialized record: the eight fields joined by single spaces.
pub open spec fn spec_settings_bytes(v: SettingsView) -> Seq<u8> {
    dec_digits(v.grid_size as int) + seq![SPACE] + v.scale_token + seq![SPACE] + spec_mode_name(
        v.mode,
    ) + seq![SPACE] + dec_digits(v.base_tile_size as int) + seq![SPACE] + dec_digits(
        v.packed_offset_x as int,
    ) + seq![SPACE] + dec_digits(v.packed_offset_y as int) + seq![SPACE] + dec_digits(
        v.packed_size_x as int,
    ) + seq![SPACE] + dec_digits(v.packed_size_y as int)
}

/// Append all bytes of `src`.
pub fn push_bytes(out: &mut Vec<u8>, src: &Vec<u8>)
    ensures
        final(out)@ == old(out)@ + src@,
{
    let mut i: usize = 0;
    while i < src.len()
        invariant
            i <= src@.len(),
            out@ == old(out)@ + src@.take(i as int),
        decreases src@.len() - i,
    {
        let b: u8 = src[i];
        out.push(b);
        proof {
            assert(out@ =~= old(out)@ + src@.take(i + 1));
        }
        i = i + 1;
    }
    proof {
        assert(old(out)@ + src@.take(src@.len() as int) =~= old(out)@ + src@);
    }
}

/// Serialize a settings record.
pub fn settings_to_bytes(s: &AssetSettings) -> (r: Vec<u8>)
    ensures
        r@ == spec_settings_bytes(s@),
{
    let mut out: Vec<u8> = Vec::new();
    push_decimal(&mut out, s.grid_size);
    out.push(SPACE);
    push_bytes(&mut out, &s.scale_token);
    out.push(SPACE);
    push_mode_name(&mut out, s.mode);
    out.push(SPACE);
    push_decimal(&mut out, s.base_tile_size);
    out.push(SPACE);
    push_decimal(&mut out, s.packed_offset_x);
    out.push(SPACE);
    push_decimal(&mut out, s.packed_offset_y);
    out.push(SPACE);
    push_decimal(&mut out, s.packed_size_x);
    out.push(SPACE);
    push_decimal(&mut out, s.packed_size_y);
    proof {
        assert(out@ =~= spec_settings_bytes(s@));
    }
    out
}

/// What parsing a settings record yields: the eight leading fields, with a
/// malformed count, a malformed number, or a scale outside the float
/// grammar reported as `BadSettingsFormat`, and a mode name that is none of
/// the three reported as `UnknownMode`. Fields beyond the eighth are
/// ignored.
pub open spec fn spec_parse_settings(bytes: Seq<u8>) -> Result<SettingsView, ImposterError> {
    let parts = split_spaces(bytes);
    if parts.len() < 8 {
        Err(ImposterError::BadSettingsFormat)
    } else if spec_parse_u32(parts[0]) is None || !is_float_token(parts[1]) || spec_parse_u32(
        parts[3],
    )
        is None || spec_parse_u32(parts[4]) is None || spec_parse_u32(parts[5]) is None
        || spec_parse_u32(parts[6]) is None || spec_parse_u32(parts[7]) is None {
        Err(ImposterError::BadSettingsFormat)
    } else if spec_parse_mode(parts[2]) is None {
        Err(ImposterError::UnknownMode)
    } else {
        Ok(
            SettingsView {
                grid_size: spec_parse_u32(parts[0])->Some_0,
                scale_token: parts[1],
                mode: spec_parse_mode(parts[2])->Some_0,
                base_tile_size: spec_parse_u32(parts[3])->Some_0,
                packed_offset_x: spec_parse_u32(parts[4])->Some_0,
                packed_offset_y: spec_parse_u32(parts[5])->Some_0,
                packed_size_x: spec_parse_u32(parts[6])->Some_0,
                packed_size_y: spec_parse_u32(parts[7])->Some_0,
            },
        )
    }
}

/// Parse a settings record.
pub fn parse_settings(bytes: &Vec<u8>) -> (r: Result<AssetSettings, ImposterError>)
    ensures
        match r {
            Ok(s) => spec_parse_settings(bytes@) == Ok::<SettingsView, ImposterError>(s@)
                && s.wf(),
            Err(e) => spec_parse_settings(bytes@) == Err::<SettingsView, ImposterError>(e),
        },
{
    let mut tokens = split_tokens(bytes);
    let ghost parts = split_spaces(bytes@);
    if tokens.len() < 8 {
        return Err(ImposterError::BadSettingsFormat);
    }
    let t0 = tokens.remove(0);
    let t1 = tokens.remove(0);
    let t2 = tokens.remove(0);
    let t3 = tokens.remove(0);
    let t4 = tokens.remove(0);
    let t5 = tokens.remove(0);
    let t6 = tokens.remove(0);
    let t7 = tokens.remove(0);
    proof {
        assert(t0@ == parts[0] && t1@ == parts[1] && t2@ == parts[2] && t3@ == parts[3] && t4@
            == parts[4] && t5@ == parts[5] && t6@ == parts[6] && t7@ == parts[7]);
        lemma_split_tokens_no_space(bytes@, 0);
    }
    let grid_size = parse_u32_token(&t0);
    let base_tile_size = parse_u32_token(&t3);
    let packed_offset_x = parse_u32_token(&t4);
    let packed_offset_y = parse_u32_token(&t5);
    let packed_size_x = parse_u32_token(&t6);
    let packed_size_y = parse_u32_token(&t7);
    let scale_ok = scale_token_is_float(&t1);
    if grid_size.is_none() || !scale_ok || base_tile_size.is_none() || packed_offset_x.is_none()
        || packed_offset_y.is_none() || packed_size_x.is_none() || packed_size_y.is_none() {
        return Err(ImposterError::BadSettingsFormat);
    }
    proof {
        lemma_float_token_nonempty(t1@);
    }
    let mode = match parse_mode_token(&t2) {
        Some(m) => m,
        None => {
            return Err(ImposterError::UnknownMode);
        },
    };
    let s = AssetSettings {
        grid_size: grid_size.unwrap(),
        scale_token: t1,
        mode,
        base_tile_size: base_tile_size.unwrap(),
        packed_offset_x: packed_offset_x.unwrap(),
        packed_offset_y: packed_offset_y.unwrap(),
        packed_size_x: packed_size_x.unwrap(),
        packed_size_y: packed_size_y.unwrap(),
    };
    Ok(s)
}

/// No field produced by splitting contains a space.
pub proof fn lemma_split_tokens_no_space(s: Seq<u8>, pos: int)
    requires
        0 <= pos <= s.len(),
    ensures
        forall|i: int, j: int|
            0 <= i < split_from(s, pos).len() && 0 <= j < split_from(s, pos)[i].len()
                ==> #[trigger] split_from(s, pos)[i][j] != SPACE,
    decreases s.len() - pos,
{
    lemma_find_space_props(s, pos);
    let fs = find_space(s, pos);
    if !(fs < pos || fs >= s.len()) {
        lemma_split_tokens_no_space(s, fs + 1);
        assert forall|i: int, j: int|
            0 <= i < split_from(s, pos).len() && 0 <= j < split_from(s, pos)[i].len()
                implies #[trigger] split_from(s, pos)[i][j] != SPACE by {
            if i == 0 {
                assert(split_from(s, pos)[0] == s.subrange(pos, fs));
                assert(s.subrange(pos, fs)[j] == s[pos + j]);
            } else {
                assert(split_from(s, pos)[i] == split_from(s, fs + 1)[i - 1]);
            }
        }
    } else {
        assert(fs >= s.len());
        assert forall|i: int, j: int|
            0 <= i < split_from(s, pos).len() && 0 <= j < split_from(s, pos)[i].len()
                implies #[trigger] split_from(s, pos)[i][j] != SPACE by {
            assert(split_from(s, pos)[i] == s.subrange(pos, s.len() as int));
            assert(s.subrange(pos, s.len() as int)[j] == s[pos + j]);
        }
    }
}

/// Everything before the first space at or after `i` is not a space; the
/// position found is a space or the end.
pub proof fn lemma_find_space_props(s: Seq<u8>, i: int)
    requires
        0 <= i,
    ensures
        i <= find_space(s, i) <= s.len() || i >= s.len(),
        forall|q: int| i <= q < find_space(s, i) ==> s[q] != SPACE,
        find_space(s, i) < s.len() ==> s[find_space(s, i)] == SPACE,
    decreases s.len() - i,
{
    if i < s.len() && s[i] != SPACE {
        lemma_find_space_props(s, i + 1);
    }
}

/// A serialized settings record parses back to exactly its fields: the
/// metadata round-trips losslessly.
#[verifier::rlimit(100)]
pub proof fn lemma_settings_roundtrip(v: SettingsView)
    requires
        scale_token_wf(v.scale_token),
        is_float_token(v.scale_token),
    ensures
        spec_parse_settings(spec_settings_bytes(v)) == Ok::<SettingsView, ImposterError>(v),
{
    let s = spec_settings_bytes(v);
    let t0 = dec_digits(v.grid_size as int);
    let t1 = v.scale_token;
    let t2 = spec_mode_name(v.mode);
    let t3 = dec_digits(v.base_tile_size as int);
    let t4 = dec_digits(v.packed_offset_x as int);
    let t5 = dec_digits(v.packed_offset_y as int);
    let t6 = dec_digits(v.packed_size_x as int);
    let t7 = dec_digits(v.packed_size_y as int);
    lemma_dec_digits_are_digits(v.grid_size as int);
    lemma_dec_digits_are_digits(v.base_tile_size as int);
    lemma_dec_digits_are_digits(v.packed_offset_x as int);
    lemma_dec_digits_are_digits(v.packed_offset_y as int);
    lemma_dec_digits_are_digits(v.packed_size_x as int);
    lemma_dec_digits_are_digits(v.packed_size_y as int);
    let p0 = 0int;
    let p1 = p0 + t0.len() + 1;
    let p2 = p1 + t1.len() + 1;
    let p3 = p2 + t2.len() + 1;
    let p4 = p3 + t3.len() + 1;
    let p5 = p4 + t4.len() + 1;
    let p6 = p5 + t5.len() + 1;
    let p7 = p6 + t6.len() + 1;
    assert(s.len() == p7 + t7.len());
    assert(s.subrange(p0, p0 + t0.len()) =~= t0);
    assert(s.subrange(p1, p1 + t1.len()) =~= t1);
    assert(s.subrange(p2, p2 + t2.len()) =~= t2);
    assert(s.subrange(p3, p3 + t3.len()) =~= t3);
    assert(s.subrange(p4, p4 + t4.len()) =~= t4);
    assert(s.subrange(p5, p5 + t5.len()) =~= t5);
    assert(s.subrange(p6, p6 + t6.len()) =~= t6);
    assert(s.subrange(p7, p7 + t7.len()) =~= t7);
    lemma_mode_name_no_space(v.mode);
    lemma_digits_no_space(v.grid_size as int);
    lemma_digits_no_space(v.base_tile_size as int);
    lemma_digits_no_space(v.packed_offset_x as int);
    lemma_digits_no_space(v.packed_offset_y as int);
    lemma_digits_no_space(v.packed_size_x as int);
    lemma_digits_no_space(v.packed_size_y as int);
    lemma_split_peel(s, p0, t0, p0 + t0.len());
    lemma_split_peel(s, p1, t1, p1 + t1.len());
    lemma_split_peel(s, p2, t2, p2 + t2.len());
    lemma_split_peel(s, p3, t3, p3 + t3.len());
    lemma_split_peel(s, p4, t4, p4 + t4.len());
    lemma_split_peel(s, p5, t5, p5 + t5.len());
    lemma_split_peel(s, p6, t6, p6 + t6.len());
    lemma_split_peel(s, p7, t7, p7 + t7.len());
    let parts = split_spaces(s);
    assert(parts =~= seq![t0, t1, t2, t3, t4, t5, t6, t7]);
    lemma_dec_digits_parse(v.grid_size);
    lemma_dec_digits_parse(v.base_tile_size);
    lemma_dec_digits_parse(v.packed_offset_x);
    lemma_dec_digits_parse(v.packed_offset_y);
    lemma_dec_digits_parse(v.packed_size_x);
    lemma_dec_digits_parse(v.packed_size_y);
    lemma_mode_names_distinct();
    assert(spec_parse_mode(t2) == Some(v.mode));
}

/// Digit strings hold no space.
pub proof fn lemma_digits_no_space(n: int)
    requires
        n >= 0,
    ensures
        forall|j: int|
            0 <= j < dec_digits(n).len() ==> #[trigger] dec_digits(n)[j] != SPACE,
{
    lemma_dec_digits_are_digits(n);
}

/// Mode names hold no space.
pub proof fn lemma_mode_name_no_space(m: GridMode)
    ensures
        forall|j: int|
            0 <= j < spec_mode_name(m).len() ==> #[trigger] spec_mode_name(m)[j] != SPACE,
{
    match m {
        GridMode::Spherical => {
            assert forall|j: int|
                0 <= j < spec_mode_name(m).len() implies #[trigger] spec_mode_name(m)[j]
                != SPACE by {}
        },
        GridMode::Hemispherical => {
            assert forall|j: int|
                0 <= j < spec_mode_name(m).len() implies #[trigger] spec_mode_name(m)[j]
                != SPACE by {}
        },
        GridMode::Horizontal => {
            assert forall|j: int|
                0 <= j < spec_mode_name(m).len() implies #[trigger] spec_mode_name(m)[j]
                != SPACE by {}
        },
    }
}

/// Each mode name parses back to its own mode.
pub proof fn lemma_mode_names_distinct()
    ensures
        forall|m: GridMode| #[trigger] spec_parse_mode(spec_mode_name(m)) == Some(m),
{
    assert(spec_mode_name(GridMode::Spherical).len() == 9);
    assert(spec_mode_name(GridMode::Hemispherical).len() == 13);
    assert(spec_mode_name(GridMode::Horizontal).len() == 10);
    assert forall|m: GridMode| #[trigger] spec_parse_mode(spec_mode_name(m)) == Some(m) by {
        match m {
            GridMode::Spherical => {},
            GridMode::Hemispherical => {},
            GridMode::Horizontal => {},
        }
    }
}

} // verus!
