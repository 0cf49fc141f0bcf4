//! JSON codec for the wire messages.
//!
//! The grammar accepted here is the command subset of JSON: a single
//! top-level object whose members are scanned left to right.  Members with
//! a known name must carry a number, a string or `null`; members with an
//! unknown name are skipped by balanced-delimiter scanning (forward
//! compatibility).  Numbers are fixed-point decimals with at most four
//! fractional digits kept; further digits round the magnitude away from
//! zero, which preserves every strict and inclusive bound comparison the
//! validator makes.  String escapes are the short JSON escapes
//! (`\" \\ \/ \b \f \n \r \t`); `\uXXXX` is not accepted.
//!
//! The spec functions in this file are the definition of the codec; the
//! executable parser and serializer are proved to return exactly what the
//! spec functions denote.

use vstd::prelude::*;
use crate::command::{Command, CommandV};

verus! {

/// Largest accepted integer part of a wire number: far beyond every
/// physical envelope, small enough that every scaled magnitude fits an
/// `i64`.
pub const INT_MAX: i64 = 1000_000_000_000;

/// Bound on the scaled magnitude of a parsed number: `INT_MAX` whole units
/// plus four fractional digits and the rounding carry.
pub const MAG_MAX: i64 = 1000_000_000_000 * 10000 + 10000;

// ---------------------------------------------------------------------------
// Characters and digits
// ---------------------------------------------------------------------------

/// JSON insignificant whitespace.
pub open spec fn is_ws(c: char) -> bool {
    c == ' ' || c == '\t' || c == '\n' || c == '\r'
}

pub open spec fn is_digit(c: char) -> bool {
    48 <= (c as u32) && (c as u32) <= 57
}

pub open spec fn digit_val(c: char) -> int {
    (c as u32) - 48
}

pub open spec fn digit_char(d: int) -> char {
    if d == 0 { '0' }
    else if d == 1 { '1' }
    else if d == 2 { '2' }
    else if d == 3 { '3' }
    else if d == 4 { '4' }
    else if d == 5 { '5' }
    else if d == 6 { '6' }
    else if d == 7 { '7' }
    else if d == 8 { '8' }
    else { '9' }
}

/// Decimal digits of `n`, most significant first.
pub open spec fn dec_digits(n: nat) -> Seq<char>
    decreases n,
{
    if n < 10 { seq![digit_char(n as int)] }
    else { dec_digits(n / 10) + seq![digit_char(n as int % 10)] }
}

/// Exactly four fractional digits of a magnitude `m < 10000`.
pub open spec fn frac4_digits(m: nat) -> Seq<char> {
    seq![
        digit_char(m as int / 1000 % 10),
        digit_char(m as int / 100 % 10),
        digit_char(m as int / 10 % 10),
        digit_char(m as int % 10),
    ]
}

/// Canonical text of a scaled number: integer part, a point, four digits.
pub open spec fn fmt_e4(v: int) -> Seq<char> {
    if v < 0 { seq!['-'] + fmt_e4_mag((-v) as nat) } else { fmt_e4_mag(v as nat) }
}

pub open spec fn fmt_e4_mag(m: nat) -> Seq<char> {
    dec_digits(m / 10000) + seq!['.'] + frac4_digits(m % 10000)
}

// ---------------------------------------------------------------------------
// String escaping (serializer side)
// ---------------------------------------------------------------------------

pub open spec fn esc_char(c: char) -> Seq<char> {
    if c == '"' { seq!['\\', '"'] }
    else if c == '\\' { seq!['\\', '\\'] }
    else if c == '\n' { seq!['\\', 'n'] }
    else if c == '\r' { seq!['\\', 'r'] }
    else if c == '\t' { seq!['\\', 't'] }
    else if c == '\u{0008}' { seq!['\\', 'b'] }
    else if c == '\u{000C}' { seq!['\\', 'f'] }
    else { seq![c] }
}

pub open spec fn esc_str(s: Seq<char>) -> Seq<char>
    decreases s.len(),
{
    if s.len() == 0 { Seq::<char>::empty() } else { esc_char(s[0]) + esc_str(s.skip(1)) }
}

/// A quoted, escaped JSON string literal.
pub open spec fn quoted(s: Seq<char>) -> Seq<char> {
    seq!['"'] + esc_str(s) + seq!['"']
}

// ---------------------------------------------------------------------------
// Canonical serialization of a command
// ---------------------------------------------------------------------------

/// Scaled numeric fields a serializer can render: magnitude within
/// `MAG_MAX`, as every parsed number is.
pub open spec fn in_range(c: CommandV) -> bool {
    match c {
        CommandV::GoTo { lat, lon, alt_m, speed_mps } => {
            &&& -MAG_MAX <= lat <= MAG_MAX
            &&& -MAG_MAX <= lon <= MAG_MAX
            &&& -MAG_MAX <= alt_m <= MAG_MAX
            &&& match speed_mps {
                Some(s) => -MAG_MAX <= s <= MAG_MAX,
                None => true,
            }
        },
        _ => true,
    }
}

/// The canonical JSON form of a command: the tag first, the fields in
/// declaration order, absent optionals omitted.
pub open spec fn ser_cmd(c: CommandV) -> Seq<char> {
    match c {
        CommandV::GoTo { lat, lon, alt_m, speed_mps } => {
            "{\"type\":\"go_to\",\"lat\":"@ + fmt_e4(lat) + ",\"lon\":"@ + fmt_e4(lon)
                + ",\"alt_m\":"@ + fmt_e4(alt_m) + (match speed_mps {
                Some(s) => ",\"speed_mps\":"@ + fmt_e4(s),
                None => Seq::<char>::empty(),
            }) + "}"@
        },
        CommandV::TakePicture { mode } => {
            "{\"type\":\"take_picture\""@ + (match mode {
                Some(m) => ",\"mode\":"@ + quoted(m),
                None => Seq::<char>::empty(),
            }) + "}"@
        },
        CommandV::RotateAndFilm { degrees, duration_s, quality } => {
            "{\"type\":\"rotate_and_film\",\"degrees\":"@ + dec_digits(degrees as nat)
                + (match duration_s {
                Some(d) => ",\"duration_s\":"@ + dec_digits(d as nat),
                None => Seq::<char>::empty(),
            }) + (match quality {
                Some(q) => ",\"quality\":"@ + quoted(q),
                None => Seq::<char>::empty(),
            }) + "}"@
        },
        CommandV::Ping => "{\"type\":\"ping\"}"@,
    }
}

// ---------------------------------------------------------------------------
// Parsing: scanners over a character sequence
// ---------------------------------------------------------------------------

/// First position at or after `i` holding no whitespace.
pub open spec fn skip_ws(s: Seq<char>, i: int) -> int
    decreases s.len() - i,
{
    if 0 <= i < s.len() && is_ws(s[i]) { skip_ws(s, i + 1) } else { i }
}

/// Accumulates decimal digits from `i`; `None` when the value would pass
/// `INT_MAX`, else the value and the first non-digit position.
pub open spec fn scan_digits(s: Seq<char>, i: int, acc: int) -> Option<(int, int)>
    decreases s.len() - i,
{
    if 0 <= i < s.len() && is_digit(s[i]) {
        if acc * 10 + digit_val(s[i]) > INT_MAX { None }
        else { scan_digits(s, i + 1, acc * 10 + digit_val(s[i])) }
    } else {
        Some((acc, i))
    }
}

/// Accumulates fractional digits from `i`: the first four build `acc`
/// (count in `cnt`), any further nonzero digit sets `sticky`.  Returns
/// `(cnt, acc, sticky, end)`.
pub open spec fn scan_frac(s: Seq<char>, i: int, cnt: int, acc: int, sticky: bool) -> (int, int, bool, int)
    decreases s.len() - i,
{
    if 0 <= i < s.len() && is_digit(s[i]) {
        if cnt < 4 { scan_frac(s, i + 1, cnt + 1, acc * 10 + digit_val(s[i]), sticky) }
        else { scan_frac(s, i + 1, cnt, acc, sticky || digit_val(s[i]) != 0) }
    } else {
        (cnt, acc, sticky, i)
    }
}

pub open spec fn pow10(k: nat) -> int
    decreases k,
{
    if k == 0 { 1 } else { 10 * pow10((k - 1) as nat) }
}

/// A number starting at `i`: optional minus, integer digits, optionally a
/// point with at least one fractional digit.  The scaled value keeps four
/// fractional digits and rounds the magnitude away from zero when any
/// discarded digit is nonzero.
pub open spec fn parse_num(s: Seq<char>, i: int) -> Option<(int, int)> {
    let (neg, j) = if 0 <= i < s.len() && s[i] == '-' { (true, i + 1) } else { (false, i) };
    if 0 <= j < s.len() && is_digit(s[j]) {
        match scan_digits(s, j, 0) {
            Some((ip, k)) => {
                let (mag, end) = if k < s.len() && s[k] == '.' && k + 1 < s.len() && is_digit(
                    s[k + 1],
                ) {
                    let (cnt, acc, sticky, e) = scan_frac(s, k + 1, 0, 0, false);
                    (ip * 10000 + acc * pow10((4 - cnt) as nat) + (if sticky { 1int } else { 0int }), e)
                } else {
                    (ip * 10000, k)
                };
                Some(((if neg { -mag } else { mag }), end))
            },
            None => None,
        }
    } else {
        None
    }
}

/// Body of a quoted string from `i` (past the opening quote), unescaping
/// as it goes; `None` on a raw control character, an unknown escape
/// (including `\u`), or a missing closing quote.
pub open spec fn scan_str(s: Seq<char>, i: int, acc: Seq<char>) -> Option<(Seq<char>, int)>
    decreases s.len() - i,
{
    if !(0 <= i < s.len()) { None }
    else if s[i] == '"' { Some((acc, i + 1)) }
    else if s[i] == '\\' {
        if i + 1 < s.len() {
            let c = s[i + 1];
            if c == '"' { scan_str(s, i + 2, acc + seq!['"']) }
            else if c == '\\' { scan_str(s, i + 2, acc + seq!['\\']) }
            else if c == '/' { scan_str(s, i + 2, acc + seq!['/']) }
            else if c == 'n' { scan_str(s, i + 2, acc + seq!['\n']) }
            else if c == 'r' { scan_str(s, i + 2, acc + seq!['\r']) }
            else if c == 't' { scan_str(s, i + 2, acc + seq!['\t']) }
            else if c == 'b' { scan_str(s, i + 2, acc + seq!['\u{0008}']) }
            else if c == 'f' { scan_str(s, i + 2, acc + seq!['\u{000C}']) }
            else { None }
        } else { None }
    }
    else if c_is_ctrl(s[i]) { None }
    else { scan_str(s, i + 1, acc + seq![s[i]]) }
}

pub open spec fn c_is_ctrl(c: char) -> bool {
    (c as u32) < 32
}

/// A quoted string starting exactly at `i`.
pub open spec fn parse_str(s: Seq<char>, i: int) -> Option<(Seq<char>, int)> {
    if 0 <= i < s.len() && s[i] == '"' { scan_str(s, i + 1, Seq::<char>::empty()) } else { None }
}

// ---------------------------------------------------------------------------
// Skipping unknown member values
// ---------------------------------------------------------------------------

/// Position just past a raw string body (no unescaping): from `i` past the
/// opening quote to past the first unescaped quote.
pub open spec fn skip_str(s: Seq<char>, i: int) -> Option<int>
    decreases s.len() - i,
{
    if !(0 <= i < s.len()) { None }
    else if s[i] == '\\' { if i + 1 < s.len() { skip_str(s, i + 2) } else { None } }
    else if s[i] == '"' { Some(i + 1) }
    else { skip_str(s, i + 1) }
}

/// Position of the first delimiter ending an unquoted primitive token.
pub open spec fn skip_prim(s: Seq<char>, i: int) -> Option<int>
    decreases s.len() - i,
{
    if !(0 <= i < s.len()) { None }
    else if is_ws(s[i]) || s[i] == ',' || s[i] == '}' || s[i] == ']' { Some(i) }
    else { skip_prim(s, i + 1) }
}

/// Scans past a nested composite: counts bracket depth, blind to bracket
/// kind, honouring strings and escapes.  Enter just past the opener with
/// `depth == 1`.
pub open spec fn skip_nested(s: Seq<char>, i: int, depth: int, in_str: bool, esc: bool) -> Option<
    int,
>
    decreases s.len() - i,
{
    if !(0 <= i < s.len()) { None }
    else if in_str {
        if esc { skip_nested(s, i + 1, depth, true, false) }
        else if s[i] == '\\' { skip_nested(s, i + 1, depth, true, true) }
        else if s[i] == '"' { skip_nested(s, i + 1, depth, false, false) }
        else { skip_nested(s, i + 1, depth, true, false) }
    }
    else if s[i] == '"' { skip_nested(s, i + 1, depth, true, false) }
    else if s[i] == '{' || s[i] == '[' { skip_nested(s, i + 1, depth + 1, false, false) }
    else if s[i] == '}' || s[i] == ']' {
        if depth == 1 { Some(i + 1) } else { skip_nested(s, i + 1, depth - 1, false, false) }
    }
    else { skip_nested(s, i + 1, depth, false, false) }
}

/// Position just past one JSON value starting at `i`, by shape alone.
pub open spec fn skip_value(s: Seq<char>, i: int) -> Option<int> {
    if !(0 <= i < s.len()) { None }
    else if s[i] == '"' { skip_str(s, i + 1) }
    else if s[i] == '{' || s[i] == '[' { skip_nested(s, i + 1, 1, false, false) }
    else { skip_prim(s, i) }
}

// ---------------------------------------------------------------------------
// Members of the top-level object
// ---------------------------------------------------------------------------

/// The value of one member under a known name.
pub enum ScalarV {
    Num(int),
    Str(Seq<char>),
    Null,
    /// Some other JSON shape, skipped but remembered as ill-typed.
    Opaque,
}

/// What the member scan collected for each known name; `None` is absent.
pub struct SlotsV {
    pub ty: Option<ScalarV>,
    pub lat: Option<ScalarV>,
    pub lon: Option<ScalarV>,
    pub alt_m: Option<ScalarV>,
    pub speed_mps: Option<ScalarV>,
    pub mode: Option<ScalarV>,
    pub degrees: Option<ScalarV>,
    pub duration_s: Option<ScalarV>,
    pub quality: Option<ScalarV>,
}

pub open spec fn empty_slots() -> SlotsV {
    SlotsV {
        ty: None,
        lat: None,
        lon: None,
        alt_m: None,
        speed_mps: None,
        mode: None,
        degrees: None,
        duration_s: None,
        quality: None,
    }
}

pub open spec fn is_known_key(k: Seq<char>) -> bool {
    ||| k == "type"@
    ||| k == "lat"@
    ||| k == "lon"@
    ||| k == "alt_m"@
    ||| k == "speed_mps"@
    ||| k == "mode"@
    ||| k == "degrees"@
    ||| k == "duration_s"@
    ||| k == "quality"@
}

/// Stores `v` under the known name `k`; a repeated name keeps the last
/// occurrence.
pub open spec fn set_slot(sl: SlotsV, k: Seq<char>, v: ScalarV) -> SlotsV {
    if k == "type"@ { SlotsV { ty: Some(v), ..sl } }
    else if k == "lat"@ { SlotsV { lat: Some(v), ..sl } }
    else if k == "lon"@ { SlotsV { lon: Some(v), ..sl } }
    else if k == "alt_m"@ { SlotsV { alt_m: Some(v), ..sl } }
    else if k == "speed_mps"@ { SlotsV { speed_mps: Some(v), ..sl } }
    else if k == "mode"@ { SlotsV { mode: Some(v), ..sl } }
    else if k == "degrees"@ { SlotsV { degrees: Some(v), ..sl } }
    else if k == "duration_s"@ { SlotsV { duration_s: Some(v), ..sl } }
    else { SlotsV { quality: Some(v), ..sl } }
}

/// The literal `null` laid out at `i`.
pub open spec fn null_at(s: Seq<char>, i: int) -> bool {
    &&& 0 <= i
    &&& i + 4 <= s.len()
    &&& s[i] == 'n'
    &&& s[i + 1] == 'u'
    &&& s[i + 2] == 'l'
    &&& s[i + 3] == 'l'
}

/// A member value under a known name: a number, a string or `null`;
/// any other shape is skipped and recorded as `Opaque`.
pub open spec fn parse_scalar(s: Seq<char>, i: int) -> Option<(ScalarV, int)> {
    if !(0 <= i < s.len()) { None }
    else if s[i] == '"' {
        match parse_str(s, i) {
            Some((v, j)) => Some((ScalarV::Str(v), j)),
            None => None,
        }
    }
    else if s[i] == '-' || is_digit(s[i]) {
        match parse_num(s, i) {
            Some((v, j)) => Some((ScalarV::Num(v), j)),
            None => None,
        }
    }
    else if null_at(s, i) { Some((ScalarV::Null, i + 4)) }
    else {
        match skip_value(s, i) {
            Some(j) => Some((ScalarV::Opaque, j)),
            None => None,
        }
    }
}

/// Members from `i` (just past `{` or a comma) to the closing brace:
/// returns the collected slots and the position past the brace.  `fuel`
/// bounds the member count; the callers give one unit per input
/// character, which a member can never outrun.
pub open spec fn parse_members(s: Seq<char>, i: int, sl: SlotsV, fuel: nat) -> Option<(SlotsV, int)>
    decreases fuel,
{
    if fuel == 0 { None }
    else {
        let i1 = skip_ws(s, i);
        match parse_str(s, i1) {
            Some((key, j)) => {
                let j1 = skip_ws(s, j);
                if j1 < s.len() && s[j1] == ':' {
                    let j2 = skip_ws(s, j1 + 1);
                    let vres = if is_known_key(key) {
                        match parse_scalar(s, j2) {
                            Some((v, e)) => Some((set_slot(sl, key, v), e)),
                            None => None,
                        }
                    } else {
                        match skip_value(s, j2) {
                            Some(e) => Some((sl, e)),
                            None => None,
                        }
                    };
                    match vres {
                        Some((sl2, e)) => {
                            let i2 = skip_ws(s, e);
                            if i2 < s.len() && s[i2] == ',' {
                                parse_members(s, i2 + 1, sl2, (fuel - 1) as nat)
                            } else if i2 < s.len() && s[i2] == '}' {
                                Some((sl2, i2 + 1))
                            } else {
                                None
                            }
                        },
                        None => None,
                    }
                } else {
                    None
                }
            },
            None => None,
        }
    }
}

/// The top-level object: its slots and the position past its brace.
pub open spec fn parse_object(s: Seq<char>) -> Option<(SlotsV, int)> {
    let i = skip_ws(s, 0);
    if i < s.len() && s[i] == '{' {
        let i1 = skip_ws(s, i + 1);
        if i1 < s.len() && s[i1] == '}' { Some((empty_slots(), i1 + 1)) }
        else { parse_members(s, i + 1, empty_slots(), s.len() + 1) }
    } else {
        None
    }
}

// ---------------------------------------------------------------------------
// Extraction: slots to command
// ---------------------------------------------------------------------------

/// A required scaled number: present and numeric, else no command.
pub open spec fn req_num(sl: Option<ScalarV>) -> Option<int> {
    match sl {
        Some(ScalarV::Num(v)) => Some(v),
        _ => None,
    }
}

/// An optional scaled number: absent and `null` mean `None`.
pub open spec fn opt_num(sl: Option<ScalarV>) -> Option<Option<int>> {
    match sl {
        None => Some(None),
        Some(ScalarV::Null) => Some(None),
        Some(ScalarV::Num(v)) => Some(Some(v)),
        _ => None,
    }
}

/// An optional string: absent and `null` mean `None`.
pub open spec fn opt_str(sl: Option<ScalarV>) -> Option<Option<Seq<char>>> {
    match sl {
        None => Some(None),
        Some(ScalarV::Null) => Some(None),
        Some(ScalarV::Str(v)) => Some(Some(v)),
        _ => None,
    }
}

/// A required whole number within `bound`: a scaled value divisible by
/// the scale, not negative, at most `bound`.
pub open spec fn req_whole(sl: Option<ScalarV>, bound: int) -> Option<int> {
    match req_num(sl) {
        Some(v) => if v % 10000 == 0 && 0 <= v / 10000 <= bound { Some(v / 10000) } else { None },
        None => None,
    }
}

pub open spec fn opt_whole(sl: Option<ScalarV>, bound: int) -> Option<Option<int>> {
    match sl {
        None => Some(None),
        Some(ScalarV::Null) => Some(None),
        Some(ScalarV::Num(v)) => if v % 10000 == 0 && 0 <= v / 10000 <= bound {
            Some(Some(v / 10000))
        } else {
            None
        },
        _ => None,
    }
}

/// The command denoted by the collected slots, when the tag is known and
/// every required field is present with the right shape.
pub open spec fn extract(sl: SlotsV) -> Option<CommandV> {
    match sl.ty {
        Some(ScalarV::Str(t)) => {
            if t == "go_to"@ {
                match (req_num(sl.lat), req_num(sl.lon), req_num(sl.alt_m), opt_num(sl.speed_mps)) {
                    (Some(lat), Some(lon), Some(alt_m), Some(speed_mps)) => Some(
                        CommandV::GoTo { lat, lon, alt_m, speed_mps },
                    ),
                    _ => None,
                }
            } else if t == "take_picture"@ {
                match opt_str(sl.mode) {
                    Some(mode) => Some(CommandV::TakePicture { mode }),
                    None => None,
                }
            } else if t == "rotate_and_film"@ {
                match (req_whole(sl.degrees, 0xffff), opt_whole(sl.duration_s, 0xffff), opt_str(
                    sl.quality,
                )) {
                    (Some(degrees), Some(duration_s), Some(quality)) => Some(
                        CommandV::RotateAndFilm { degrees, duration_s, quality },
                    ),
                    _ => None,
                }
            } else if t == "ping"@ {
                Some(CommandV::Ping)
            } else {
                None
            }
        },
        _ => None,
    }
}

/// The command denoted by a whole text frame: the top-level object, with
/// nothing but whitespace after it.
pub open spec fn parse_cmd_spec(s: Seq<char>) -> Option<CommandV> {
    match parse_object(s) {
        Some((sl, end)) => if skip_ws(s, end) == s.len() { extract(sl) } else { None },
        None => None,
    }
}

// ---------------------------------------------------------------------------
// Executable serializer
// ---------------------------------------------------------------------------

/// Relies on `str::chars`: yields exactly the characters of the string,
/// in order.
#[verifier::external_body]
pub(crate) fn str_chars(s: &str) -> (r: Vec<char>)
    ensures
        r@ == s@,
{
    s.chars().collect()
}

/// Relies on `String::from_iter` (through `collect`): builds the string
/// holding exactly these characters, in order.
#[verifier::external_body]
pub(crate) fn chars_string(v: &Vec<char>) -> (r: String)
    ensures
        r@ == v@,
{
    v.iter().collect()
}

pub(crate) fn append_chars(out: &mut Vec<char>, s: &Vec<char>)
    ensures
        final(out)@ == old(out)@ + s@,
{
    let mut k: usize = 0;
    while k < s.len()
        invariant
            k <= s@.len(),
            out@ == old(out)@ + s@.take(k as int),
        decreases s@.len() - k,
    {
        out.push(s[k]);
        proof {
            assert(s@.take(k + 1 as int) =~= s@.take(k as int) + seq![s@[k as int]]);
        }
        k = k + 1;
    }
    proof {
        assert(s@.take(s@.len() as int) =~= s@);
    }
}

pub(crate) fn push_lit(out: &mut Vec<char>, s: &str)
    ensures
        final(out)@ == old(out)@ + s@,
{
    let v = str_chars(s);
    append_chars(out, &v);
}

fn digit_char_x(d: u64) -> (c: char)
    requires
        d < 10,
    ensures
        c == digit_char(d as int),
{
    if d == 0 { '0' }
    else if d == 1 { '1' }
    else if d == 2 { '2' }
    else if d == 3 { '3' }
    else if d == 4 { '4' }
    else if d == 5 { '5' }
    else if d == 6 { '6' }
    else if d == 7 { '7' }
    else if d == 8 { '8' }
    else { '9' }
}

fn push_digits(out: &mut Vec<char>, n: u64)
    ensures
        final(out)@ == old(out)@ + dec_digits(n as nat),
    decreases n,
{
    if n >= 10 {
        push_digits(out, n / 10);
        let c = digit_char_x(n % 10);
        out.push(c);
    } else {
        let c = digit_char_x(n);
        out.push(c);
    }
}

/// Renders a scaled number in its canonical form.
fn push_e4(out: &mut Vec<char>, v: i64)
    requires
        -MAG_MAX <= v <= MAG_MAX,
    ensures
        final(out)@ == old(out)@ + fmt_e4(v as int),
{
    let m: u64 = if v < 0 {
        out.push('-');
        (-v) as u64
    } else {
        v as u64
    };
    push_digits(out, m / 10000);
    out.push('.');
    let f = m % 10000;
    let c3 = digit_char_x(f / 1000 % 10);
    let c2 = digit_char_x(f / 100 % 10);
    let c1 = digit_char_x(f / 10 % 10);
    let c0 = digit_char_x(f % 10);
    out.push(c3);
    out.push(c2);
    out.push(c1);
    out.push(c0);
    proof {
        assert(out@ =~= old(out)@ + fmt_e4(v as int));
    }
}

/// `esc_str` grows one escaped character at a time from the left.
proof fn lemma_esc_snoc(s: Seq<char>, k: int)
    requires
        0 <= k < s.len(),
    ensures
        esc_str(s.take(k + 1)) == esc_str(s.take(k)) + esc_char(s[k]),
    decreases k,
{
    if k == 0 {
        assert(s.take(1) =~= seq![s[0]]);
        assert(s.take(1).skip(1) =~= Seq::<char>::empty());
        assert(s.take(0) =~= Seq::<char>::empty());
        assert(s.take(1)[0] == s[0]);
        assert(esc_str(Seq::<char>::empty()) == Seq::<char>::empty());
        assert(esc_str(s.take(1)) == esc_char(s.take(1)[0]) + esc_str(s.take(1).skip(1)));
        assert(esc_str(s.take(1)) =~= esc_char(s[0]));
        assert(esc_str(s.take(0)) == Seq::<char>::empty());
        assert(esc_str(s.take(k + 1)) =~= esc_str(s.take(k)) + esc_char(s[k]));
    } else {
        lemma_esc_snoc(s.skip(1), k - 1);
        assert(s.take(k + 1).skip(1) =~= s.skip(1).take(k));
        assert(s.take(k).skip(1) =~= s.skip(1).take(k - 1));
        assert(s.take(k + 1)[0] == s[0]);
        assert(s.take(k)[0] == s[0]);
        assert(s.skip(1)[k - 1] == s[k]);
        assert(esc_str(s.take(k + 1)) == esc_char(s[0]) + esc_str(s.skip(1).take(k)));
        assert(esc_str(s.take(k)) == esc_char(s[0]) + esc_str(s.skip(1).take(k - 1)));
        assert(esc_str(s.take(k + 1)) =~= esc_str(s.take(k)) + esc_char(s[k]));
    }
}

/// Renders one character of a string body, escaped as the codec demands.
fn push_esc_char(out: &mut Vec<char>, c: char)
    ensures
        final(out)@ == old(out)@ + esc_char(c),
{
    if c == '"' {
        out.push('\\');
        out.push('"');
    } else if c == '\\' {
        out.push('\\');
        out.push('\\');
    } else if c == '\n' {
        out.push('\\');
        out.push('n');
    } else if c == '\r' {
        out.push('\\');
        out.push('r');
    } else if c == '\t' {
        out.push('\\');
        out.push('t');
    } else if c == '\u{0008}' {
        out.push('\\');
        out.push('b');
    } else if c == '\u{000C}' {
        out.push('\\');
        out.push('f');
    } else {
        out.push(c);
    }
    proof {
        assert(out@ =~= old(out)@ + esc_char(c));
    }
}

/// Renders a quoted, escaped JSON string.
pub(crate) fn push_quoted(out: &mut Vec<char>, s: &str)
    ensures
        final(out)@ == old(out)@ + quoted(s@),
{
    let v = str_chars(s);
    out.push('"');
    let mut k: usize = 0;
    while k < v.len()
        invariant
            k <= v@.len(),
            v@ == s@,
            out@ == old(out)@ + seq!['"'] + esc_str(s@.take(k as int)),
        decreases v@.len() - k,
    {
        push_esc_char(out, v[k]);
        proof {
            lemma_esc_snoc(s@, k as int);
        }
        k = k + 1;
    }
    out.push('"');
    proof {
        assert(s@.take(s@.len() as int) =~= s@);
        assert(out@ =~= old(out)@ + quoted(s@));
    }
}

impl Command {
    /// The canonical JSON form of this command: the tag first, the fields
    /// in declaration order, absent optionals omitted.
    pub fn to_canonical_json(&self) -> (r: String)
        requires
            in_range(self@),
        ensures
            r@ == ser_cmd(self@),
    {
        let mut out: Vec<char> = Vec::new();
        match self {
            Command::GoTo { lat, lon, alt_m, speed_mps } => {
                push_lit(&mut out, "{\"type\":\"go_to\",\"lat\":");
                push_e4(&mut out, *lat);
                push_lit(&mut out, ",\"lon\":");
                push_e4(&mut out, *lon);
                push_lit(&mut out, ",\"alt_m\":");
                push_e4(&mut out, *alt_m);
                if let Some(s) = speed_mps {
                    push_lit(&mut out, ",\"speed_mps\":");
                    push_e4(&mut out, *s);
                }
                push_lit(&mut out, "}");
            },
            Command::TakePicture { mode } => {
                push_lit(&mut out, "{\"type\":\"take_picture\"");
                if let Some(m) = mode {
                    push_lit(&mut out, ",\"mode\":");
                    push_quoted(&mut out, m.as_str());
                }
                push_lit(&mut out, "}");
            },
            Command::RotateAndFilm { degrees, duration_s, quality } => {
                push_lit(&mut out, "{\"type\":\"rotate_and_film\",\"degrees\":");
                push_digits(&mut out, *degrees as u64);
                if let Some(d) = duration_s {
                    push_lit(&mut out, ",\"duration_s\":");
                    push_digits(&mut out, *d as u64);
                }
                if let Some(q) = quality {
                    push_lit(&mut out, ",\"quality\":");
                    push_quoted(&mut out, q.as_str());
                }
                push_lit(&mut out, "}");
            },
            Command::Ping => {
                push_lit(&mut out, "{\"type\":\"ping\"}");
            },
        }
        proof {
            assert(out@ =~= ser_cmd(self@));
        }
        chars_string(&out)
    }
}

// ---------------------------------------------------------------------------
// Executable parser
// ---------------------------------------------------------------------------

fn is_ws_x(c: char) -> (r: bool)
    ensures
        r == is_ws(c),
{
    c == ' ' || c == '\t' || c == '\n' || c == '\r'
}

fn is_digit_x(c: char) -> (r: bool)
    ensures
        r == is_digit(c),
{
    let u = c as u32;
    48 <= u && u <= 57
}

fn digit_of(c: char) -> (r: u64)
    requires
        is_digit(c),
    ensures
        r as int == digit_val(c),
        r < 10,
{
    (c as u32 - 48) as u64
}

fn skip_ws_x(s: &Vec<char>, i: usize) -> (j: usize)
    requires
        i <= s@.len(),
    ensures
        j as int == skip_ws(s@, i as int),
        i <= j <= s@.len(),
{
    let mut j = i;
    while j < s.len() && is_ws_x(s[j])
        invariant
            i <= j <= s@.len(),
            skip_ws(s@, i as int) == skip_ws(s@, j as int),
        decreases s@.len() - j,
    {
        j = j + 1;
    }
    j
}

fn scan_digits_x(s: &Vec<char>, i: usize, acc0: u64) -> (r: Option<(u64, usize)>)
    requires
        i <= s@.len(),
        acc0 as int <= INT_MAX as int,
    ensures
        match r {
            Some(p) => {
                &&& scan_digits(s@, i as int, acc0 as int) == Some((p.0 as int, p.1 as int))
                &&& i <= p.1 <= s@.len()
                &&& p.0 as int <= INT_MAX as int
            },
            None => scan_digits(s@, i as int, acc0 as int) is None,
        },
{
    let mut j = i;
    let mut acc = acc0;
    loop
        invariant
            i <= j <= s@.len(),
            acc as int <= INT_MAX as int,
            scan_digits(s@, i as int, acc0 as int) == scan_digits(s@, j as int, acc as int),
        decreases s@.len() - j,
    {
        if j < s.len() && is_digit_x(s[j]) {
            let d = digit_of(s[j]);
            let cand = acc * 10 + d;
            if cand > INT_MAX as u64 {
                return None;
            }
            acc = cand;
            j = j + 1;
        } else {
            return Some((acc, j));
        }
    }
}

fn scan_frac_x(s: &Vec<char>, i: usize) -> (r: (u64, u64, bool, usize))
    requires
        i <= s@.len(),
    ensures
        scan_frac(s@, i as int, 0, 0, false) == (r.0 as int, r.1 as int, r.2, r.3 as int),
        r.0 <= 4,
        (r.1 as int) < pow10(r.0 as nat),
        r.1 < 10000,
        i <= r.3 <= s@.len(),
{
    proof {
        lemma_pow10_small();
    }
    let mut j = i;
    let mut cnt: u64 = 0;
    let mut acc: u64 = 0;
    let mut sticky: bool = false;
    loop
        invariant
            i <= j <= s@.len(),
            cnt <= 4,
            (acc as int) < pow10(cnt as nat),
            acc < 10000,
            scan_frac(s@, i as int, 0, 0, false) == scan_frac(
                s@,
                j as int,
                cnt as int,
                acc as int,
                sticky,
            ),
        decreases s@.len() - j,
    {
        proof {
            lemma_pow10_small();
        }
        if j < s.len() && is_digit_x(s[j]) {
            let d = digit_of(s[j]);
            if cnt < 4 {
                acc = acc * 10 + d;
                cnt = cnt + 1;
            } else {
                sticky = sticky || d != 0;
            }
            j = j + 1;
        } else {
            return (cnt, acc, sticky, j);
        }
    }
}

proof fn lemma_pow10_small()
    ensures
        pow10(0) == 1,
        pow10(1) == 10,
        pow10(2) == 100,
        pow10(3) == 1000,
        pow10(4) == 10000,
{
    assert(pow10(0) == 1);
    assert(pow10(1) == 10);
    assert(pow10(2) == 100);
    assert(pow10(3) == 1000);
    assert(pow10(4) == 10000);
}

fn parse_num_x(s: &Vec<char>, i: usize) -> (r: Option<(i64, usize)>)
    requires
        i <= s@.len(),
    ensures
        match r {
            Some(p) => {
                &&& parse_num(s@, i as int) == Some((p.0 as int, p.1 as int))
                &&& i <= p.1 <= s@.len()
                &&& -MAG_MAX <= p.0 <= MAG_MAX
            },
            None => parse_num(s@, i as int) is None,
        },
{
    proof {
        lemma_pow10_small();
    }
    let (neg, j): (bool, usize) = if i < s.len() && s[i] == '-' {
        (true, i + 1)
    } else {
        (false, i)
    };
    if j < s.len() && is_digit_x(s[j]) {
        match scan_digits_x(s, j, 0) {
            Some((ip, k)) => {
                let (mag, end): (u64, usize) = if k < s.len() && s[k] == '.' && k + 1 < s.len()
                    && is_digit_x(s[k + 1]) {
                    let (cnt, acc, sticky, e) = scan_frac_x(s, k + 1);
                    let frac: u64 = if cnt == 0 { acc }
                    else if cnt == 1 { acc * 1000 }
                    else if cnt == 2 { acc * 100 }
                    else if cnt == 3 { acc * 10 }
                    else { acc };
                    proof {
                        lemma_pow10_small();
                        assert(frac as int == (acc as int) * pow10((4 - cnt) as nat) && frac
                            < 10000) by {
                            lemma_pow10_small();
                            if cnt == 0 {
                                assert(acc == 0);
                            }
                        };
                    }
                    (ip * 10000 + frac + (if sticky { 1 } else { 0 }), e)
                } else {
                    (ip * 10000, k)
                };
                let v: i64 = if neg {
                    -(mag as i64)
                } else {
                    mag as i64
                };
                Some((v, end))
            },
            None => None,
        }
    } else {
        None
    }
}

fn scan_str_x(s: &Vec<char>, i: usize) -> (r: Option<(Vec<char>, usize)>)
    requires
        i <= s@.len(),
    ensures
        match r {
            Some(p) => {
                &&& scan_str(s@, i as int, Seq::<char>::empty()) == Some((p.0@, p.1 as int))
                &&& i <= p.1 <= s@.len()
            },
            None => scan_str(s@, i as int, Seq::<char>::empty()) is None,
        },
{
    let mut j = i;
    let mut acc: Vec<char> = Vec::new();
    loop
        invariant
            i <= j <= s@.len(),
            scan_str(s@, i as int, Seq::<char>::empty()) == scan_str(s@, j as int, acc@),
        decreases s@.len() - j,
    {
        if !(j < s.len()) {
            return None;
        }
        let c = s[j];
        let ghost prev = acc@;
        let ghost j0 = j as int;
        if c == '"' {
            return Some((acc, j + 1));
        } else if c == '\\' {
            if j + 1 < s.len() {
                let e = s[j + 1];
                let ok = e == '"' || e == '\\' || e == '/' || e == 'n' || e == 'r' || e == 't'
                    || e == 'b' || e == 'f';
                if !ok {
                    return None;
                }
                let pc: char = if e == '"' { '"' }
                else if e == '\\' { '\\' }
                else if e == '/' { '/' }
                else if e == 'n' { '\n' }
                else if e == 'r' { '\r' }
                else if e == 't' { '\t' }
                else { '\u{000C}' };
                let pc: char = if e == 'b' { '\u{0008}' } else { pc };
                acc.push(pc);
                j = j + 2;
                proof {
                    assert(acc@ =~= prev + seq![pc]);
                    assert(scan_str(s@, j0, prev) == scan_str(s@, j as int, acc@));
                }
            } else {
                return None;
            }
        } else if (c as u32) < 32 {
            return None;
        } else {
            acc.push(c);
            j = j + 1;
            proof {
                assert(acc@ =~= prev + seq![c]);
                assert(scan_str(s@, j0, prev) == scan_str(s@, j as int, acc@));
            }
        }
    }
}

fn skip_str_x(s: &Vec<char>, i: usize) -> (r: Option<usize>)
    requires
        i <= s@.len(),
    ensures
        match r {
            Some(j) => skip_str(s@, i as int) == Some(j as int) && i <= j <= s@.len(),
            None => skip_str(s@, i as int) is None,
        },
{
    let mut j = i;
    loop
        invariant
            i <= j <= s@.len(),
            skip_str(s@, i as int) == skip_str(s@, j as int),
        decreases s@.len() - j,
    {
        if !(j < s.len()) {
            return None;
        }
        let c = s[j];
        if c == '\\' {
            if j + 1 < s.len() {
                j = j + 2;
            } else {
                return None;
            }
        } else if c == '"' {
            return Some(j + 1);
        } else {
            j = j + 1;
        }
    }
}

fn skip_prim_x(s: &Vec<char>, i: usize) -> (r: Option<usize>)
    requires
        i <= s@.len(),
    ensures
        match r {
            Some(j) => skip_prim(s@, i as int) == Some(j as int) && i <= j <= s@.len(),
            None => skip_prim(s@, i as int) is None,
        },
{
    let mut j = i;
    loop
        invariant
            i <= j <= s@.len(),
            skip_prim(s@, i as int) == skip_prim(s@, j as int),
        decreases s@.len() - j,
    {
        if !(j < s.len()) {
            return None;
        }
        let c = s[j];
        if is_ws_x(c) || c == ',' || c == '}' || c == ']' {
            return Some(j);
        }
        j = j + 1;
    }
}

fn skip_nested_x(s: &Vec<char>, i: usize) -> (r: Option<usize>)
    requires
        i <= s@.len(),
        s@.len() < usize::MAX,
    ensures
        match r {
            Some(j) => skip_nested(s@, i as int, 1, false, false) == Some(j as int) && i <= j
                <= s@.len(),
            None => skip_nested(s@, i as int, 1, false, false) is None,
        },
{
    let mut j = i;
    let mut depth: usize = 1;
    let mut in_str: bool = false;
    let mut esc: bool = false;
    loop
        invariant
            i <= j <= s@.len(),
            s@.len() < usize::MAX,
            1 <= depth,
            !in_str ==> !esc,
            depth as int <= j as int - i as int + 1,
            skip_nested(s@, i as int, 1, false, false) == skip_nested(
                s@,
                j as int,
                depth as int,
                in_str,
                esc,
            ),
        decreases s@.len() - j,
    {
        if !(j < s.len()) {
            return None;
        }
        let c = s[j];
        let ghost j0 = j as int;
        let ghost d0 = depth as int;
        let ghost is0 = in_str;
        let ghost e0 = esc;
        if in_str {
            if esc {
                esc = false;
            } else if c == '\\' {
                esc = true;
            } else if c == '"' {
                in_str = false;
            }
            j = j + 1;
        } else if c == '"' {
            in_str = true;
            j = j + 1;
        } else if c == '{' || c == '[' {
            depth = depth + 1;
            j = j + 1;
        } else if c == '}' || c == ']' {
            if depth == 1 {
                return Some(j + 1);
            }
            depth = depth - 1;
            j = j + 1;
        } else {
            j = j + 1;
        }
        proof {
            assert(skip_nested(s@, j0, d0, is0, e0) == skip_nested(
                s@,
                j as int,
                depth as int,
                in_str,
                esc,
            ));
        }
    }
}

fn skip_value_x(s: &Vec<char>, i: usize) -> (r: Option<usize>)
    requires
        i <= s@.len(),
        s@.len() < usize::MAX,
    ensures
        match r {
            Some(j) => skip_value(s@, i as int) == Some(j as int) && i <= j <= s@.len(),
            None => skip_value(s@, i as int) is None,
        },
{
    if !(i < s.len()) {
        return None;
    }
    let c = s[i];
    if c == '"' {
        skip_str_x(s, i + 1)
    } else if c == '{' || c == '[' {
        skip_nested_x(s, i + 1)
    } else {
        skip_prim_x(s, i)
    }
}

// ---------------------------------------------------------------------------
// Members and extraction, executable
// ---------------------------------------------------------------------------

/// Executable mirror of `ScalarV`.
pub enum Scalar {
    Num(i64),
    Str(Vec<char>),
    Null,
    Opaque,
}

impl View for Scalar {
    type V = ScalarV;

    open spec fn view(&self) -> ScalarV {
        match self {
            Scalar::Num(v) => ScalarV::Num(*v as int),
            Scalar::Str(v) => ScalarV::Str(v@),
            Scalar::Null => ScalarV::Null,
            Scalar::Opaque => ScalarV::Opaque,
        }
    }
}

/// Executable mirror of `SlotsV`.
pub struct Slots {
    pub ty: Option<Scalar>,
    pub lat: Option<Scalar>,
    pub lon: Option<Scalar>,
    pub alt_m: Option<Scalar>,
    pub speed_mps: Option<Scalar>,
    pub mode: Option<Scalar>,
    pub degrees: Option<Scalar>,
    pub duration_s: Option<Scalar>,
    pub quality: Option<Scalar>,
}

pub open spec fn slot_view(o: Option<Scalar>) -> Option<ScalarV> {
    match o {
        Some(x) => Some(x@),
        None => None,
    }
}

impl View for Slots {
    type V = SlotsV;

    open spec fn view(&self) -> SlotsV {
        SlotsV {
            ty: slot_view(self.ty),
            lat: slot_view(self.lat),
            lon: slot_view(self.lon),
            alt_m: slot_view(self.alt_m),
            speed_mps: slot_view(self.speed_mps),
            mode: slot_view(self.mode),
            degrees: slot_view(self.degrees),
            duration_s: slot_view(self.duration_s),
            quality: slot_view(self.quality),
        }
    }
}

/// A numeric slot within the magnitude every parsed number respects.
pub open spec fn scalar_bounded(v: ScalarV) -> bool {
    match v {
        ScalarV::Num(n) => -MAG_MAX <= n <= MAG_MAX,
        _ => true,
    }
}

pub open spec fn slot_bounded(o: Option<ScalarV>) -> bool {
    match o {
        Some(v) => scalar_bounded(v),
        None => true,
    }
}

pub open spec fn slots_bounded(sl: SlotsV) -> bool {
    &&& slot_bounded(sl.ty)
    &&& slot_bounded(sl.lat)
    &&& slot_bounded(sl.lon)
    &&& slot_bounded(sl.alt_m)
    &&& slot_bounded(sl.speed_mps)
    &&& slot_bounded(sl.mode)
    &&& slot_bounded(sl.degrees)
    &&& slot_bounded(sl.duration_s)
    &&& slot_bounded(sl.quality)
}

fn empty_slots_x() -> (r: Slots)
    ensures
        r@ == empty_slots(),
        slots_bounded(r@),
{
    Slots {
        ty: None,
        lat: None,
        lon: None,
        alt_m: None,
        speed_mps: None,
        mode: None,
        degrees: None,
        duration_s: None,
        quality: None,
    }
}

fn eq_chars(a: &Vec<char>, b: &Vec<char>) -> (r: bool)
    ensures
        r == (a@ == b@),
{
    if a.len() != b.len() {
        return false;
    }
    let mut k: usize = 0;
    while k < a.len()
        invariant
            k <= a@.len(),
            a@.len() == b@.len(),
            forall|m: int| 0 <= m < k ==> a@[m] == b@[m],
        decreases a@.len() - k,
    {
        if a[k] != b[k] {
            return false;
        }
        k = k + 1;
    }
    proof {
        assert(a@ =~= b@);
    }
    true
}

fn eq_lit(a: &Vec<char>, lit: &str) -> (r: bool)
    ensures
        r == (a@ == lit@),
{
    let b = str_chars(lit);
    eq_chars(a, &b)
}

fn is_known_key_x(k: &Vec<char>) -> (r: bool)
    ensures
        r == is_known_key(k@),
{
    eq_lit(k, "type") || eq_lit(k, "lat") || eq_lit(k, "lon") || eq_lit(k, "alt_m") || eq_lit(
        k,
        "speed_mps",
    ) || eq_lit(k, "mode") || eq_lit(k, "degrees") || eq_lit(k, "duration_s") || eq_lit(
        k,
        "quality",
    )
}

fn set_slot_x(sl: Slots, key: &Vec<char>, v: Scalar) -> (r: Slots)
    requires
        is_known_key(key@),
        slots_bounded(sl@),
        scalar_bounded(v@),
    ensures
        r@ == set_slot(sl@, key@, v@),
        slots_bounded(r@),
{
    if eq_lit(key, "type") { Slots { ty: Some(v), ..sl } }
    else if eq_lit(key, "lat") { Slots { lat: Some(v), ..sl } }
    else if eq_lit(key, "lon") { Slots { lon: Some(v), ..sl } }
    else if eq_lit(key, "alt_m") { Slots { alt_m: Some(v), ..sl } }
    else if eq_lit(key, "speed_mps") { Slots { speed_mps: Some(v), ..sl } }
    else if eq_lit(key, "mode") { Slots { mode: Some(v), ..sl } }
    else if eq_lit(key, "degrees") { Slots { degrees: Some(v), ..sl } }
    else if eq_lit(key, "duration_s") { Slots { duration_s: Some(v), ..sl } }
    else { Slots { quality: Some(v), ..sl } }
}

fn parse_scalar_x(s: &Vec<char>, i: usize) -> (r: Option<(Scalar, usize)>)
    requires
        i <= s@.len(),
        s@.len() < usize::MAX,
    ensures
        match r {
            Some(p) => {
                &&& parse_scalar(s@, i as int) == Some((p.0@, p.1 as int))
                &&& i <= p.1 <= s@.len()
                &&& scalar_bounded(p.0@)
            },
            None => parse_scalar(s@, i as int) is None,
        },
{
    if !(i < s.len()) {
        return None;
    }
    let c = s[i];
    if c == '"' {
        match scan_str_x(s, i + 1) {
            Some((v, j)) => Some((Scalar::Str(v), j)),
            None => None,
        }
    } else if c == '-' || is_digit_x(c) {
        match parse_num_x(s, i) {
            Some((v, j)) => Some((Scalar::Num(v), j)),
            None => None,
        }
    } else if s.len() - i >= 4 && c == 'n' && s[i + 1] == 'u' && s[i + 2] == 'l' && s[i + 3]
        == 'l' {
        Some((Scalar::Null, i + 4))
    } else {
        match skip_value_x(s, i) {
            Some(j) => Some((Scalar::Opaque, j)),
            None => None,
        }
    }
}

fn parse_members_x(s: &Vec<char>, i: usize, sl0: Slots, fuel0: usize) -> (r: Option<(
    Slots,
    usize,
)>)
    requires
        i <= s@.len(),
        s@.len() < usize::MAX,
        slots_bounded(sl0@),
    ensures
        match r {
            Some(p) => {
                &&& parse_members(s@, i as int, sl0@, fuel0 as nat) == Some((p.0@, p.1 as int))
                &&& p.1 <= s@.len()
                &&& slots_bounded(p.0@)
            },
            None => parse_members(s@, i as int, sl0@, fuel0 as nat) is None,
        },
{
    let mut j = i;
    let mut sl = sl0;
    let mut fuel = fuel0;
    loop
        invariant
            i <= j <= s@.len(),
            s@.len() < usize::MAX,
            slots_bounded(sl@),
            parse_members(s@, i as int, sl0@, fuel0 as nat) == parse_members(
                s@,
                j as int,
                sl@,
                fuel as nat,
            ),
        decreases fuel,
    {
        if fuel == 0 {
            return None;
        }
        let ghost jg = j as int;
        let ghost slg = sl@;
        let ghost fg = fuel as nat;
        let i1 = skip_ws_x(s, j);
        if !(i1 < s.len() && s[i1] == '"') {
            return None;
        }
        let (key, jk) = match scan_str_x(s, i1 + 1) {
            Some(p) => p,
            None => {
                return None;
            },
        };
        let j1 = skip_ws_x(s, jk);
        if !(j1 < s.len() && s[j1] == ':') {
            return None;
        }
        let j2 = skip_ws_x(s, j1 + 1);
        let e: usize;
        if is_known_key_x(&key) {
            match parse_scalar_x(s, j2) {
                Some((v, e1)) => {
                    sl = set_slot_x(sl, &key, v);
                    e = e1;
                },
                None => {
                    return None;
                },
            }
        } else {
            match skip_value_x(s, j2) {
                Some(e1) => {
                    e = e1;
                },
                None => {
                    return None;
                },
            }
        }
        let i2 = skip_ws_x(s, e);
        if i2 < s.len() && s[i2] == ',' {
            j = i2 + 1;
            fuel = fuel - 1;
            proof {
                assert(parse_members(s@, jg, slg, fg) == parse_members(
                    s@,
                    j as int,
                    sl@,
                    fuel as nat,
                ));
            }
        } else if i2 < s.len() && s[i2] == '}' {
            return Some((sl, i2 + 1));
        } else {
            return None;
        }
    }
}

/// A scaled value as a whole number within `bound`, for the integer
/// fields: exec mirror of `req_whole`'s acceptance test.
fn whole_of(v: i64, bound: u64) -> (r: Option<u64>)
    ensures
        match r {
            Some(w) => v % 10000 == 0 && 0 <= v / 10000 <= bound as int && w as int == v / 10000,
            None => !(v % 10000 == 0 && 0 <= v / 10000 <= bound as int),
        },
{
    if v < 0 {
        proof {
            if v % 10000 == 0 {
                assert(v == 10000 * (v / 10000) + v % 10000) by {
                    vstd::arithmetic::div_mod::lemma_fundamental_div_mod(v as int, 10000);
                };
                assert(v / 10000 < 0);
            }
        }
        return None;
    }
    let u = v as u64;
    if u % 10000 != 0 {
        return None;
    }
    let w = u / 10000;
    if w > bound {
        return None;
    }
    Some(w)
}

/// The command the collected slots denote, when the tag is known and the
/// fields have the right shapes.
fn extract_x(sl: &Slots) -> (r: Option<Command>)
    requires
        slots_bounded(sl@),
    ensures
        match r {
            Some(c) => extract(sl@) == Some(c@) && in_range(c@),
            None => extract(sl@) is None,
        },
{
    let t = match &sl.ty {
        Some(Scalar::Str(t)) => t,
        _ => {
            return None;
        },
    };
    if eq_lit(t, "go_to") {
        let lat = match &sl.lat {
            Some(Scalar::Num(v)) => *v,
            _ => {
                return None;
            },
        };
        let lon = match &sl.lon {
            Some(Scalar::Num(v)) => *v,
            _ => {
                return None;
            },
        };
        let alt_m = match &sl.alt_m {
            Some(Scalar::Num(v)) => *v,
            _ => {
                return None;
            },
        };
        let speed_mps = match &sl.speed_mps {
            None => None,
            Some(Scalar::Null) => None,
            Some(Scalar::Num(v)) => Some(*v),
            _ => {
                return None;
            },
        };
        Some(Command::GoTo { lat, lon, alt_m, speed_mps })
    } else if eq_lit(t, "take_picture") {
        let mode = match &sl.mode {
            None => None,
            Some(Scalar::Null) => None,
            Some(Scalar::Str(v)) => Some(chars_string(v)),
            _ => {
                return None;
            },
        };
        Some(Command::TakePicture { mode })
    } else if eq_lit(t, "rotate_and_film") {
        let dv = match &sl.degrees {
            Some(Scalar::Num(v)) => *v,
            _ => {
                return None;
            },
        };
        let degrees: u16 = match whole_of(dv, 0xffff) {
            Some(w) => w as u16,
            None => {
                return None;
            },
        };
        let duration_s: Option<u16> = match &sl.duration_s {
            None => None,
            Some(Scalar::Null) => None,
            Some(Scalar::Num(v)) => match whole_of(*v, 0xffff) {
                Some(w) => Some(w as u16),
                None => {
                    return None;
                },
            },
            _ => {
                return None;
            },
        };
        let quality = match &sl.quality {
            None => None,
            Some(Scalar::Null) => None,
            Some(Scalar::Str(v)) => Some(chars_string(v)),
            _ => {
                return None;
            },
        };
        Some(Command::RotateAndFilm { degrees, duration_s, quality })
    } else if eq_lit(t, "ping") {
        Some(Command::Ping)
    } else {
        None
    }
}

/// Parses one text frame into a command.  The result is exactly what the
/// spec-level codec denotes: `Ok(c)` when `parse_cmd_spec` accepts the
/// text as `c@`, and `Err` with a short diagnostic when it does not.
pub fn parse_command(text: &str) -> (r: Result<Command, String>)
    requires
        text@.len() < usize::MAX,
    ensures
        r matches Ok(c) ==> parse_cmd_spec(text@) == Some(c@) && in_range(c@),
        r is Err ==> parse_cmd_spec(text@) is None,
{
    let s = str_chars(text);
    let i = skip_ws_x(&s, 0);
    if !(i < s.len() && s[i] == '{') {
        return Err(String::from_str("expected a JSON object"));
    }
    let i1 = skip_ws_x(&s, i + 1);
    let ob: Option<(Slots, usize)> = if i1 < s.len() && s[i1] == '}' {
        Some((empty_slots_x(), i1 + 1))
    } else {
        parse_members_x(&s, i + 1, empty_slots_x(), s.len() + 1)
    };
    match ob {
        Some((sl, end)) => {
            let e2 = skip_ws_x(&s, end);
            if e2 == s.len() {
                match extract_x(&sl) {
                    Some(c) => Ok(c),
                    None => Err(String::from_str("unknown type or ill-formed fields")),
                }
            } else {
                Err(String::from_str("unexpected characters after the object"))
            }
        },
        None => Err(String::from_str("malformed JSON object")),
    }
}

// ---------------------------------------------------------------------------
// Round trip on the canonical form
// ---------------------------------------------------------------------------

/// A quoted string body without escapes or control characters scans to
/// itself.
proof fn lemma_scan_str_plain(s: Seq<char>, i: int, j: int, acc: Seq<char>)
    requires
        0 <= i <= j < s.len(),
        forall|k: int| i <= k < j ==> s[k] != '"' && s[k] != '\\' && !c_is_ctrl(s[k]),
        s[j] == '"',
    ensures
        scan_str(s, i, acc) == Some((acc + s.subrange(i, j), j + 1)),
    decreases j - i,
{
    if i == j {
        assert(s.subrange(i, j) =~= Seq::<char>::empty());
        assert(acc + s.subrange(i, j) =~= acc);
    } else {
        lemma_scan_str_plain(s, i + 1, j, acc + seq![s[i]]);
        assert(acc + seq![s[i]] + s.subrange(i + 1, j) =~= acc + s.subrange(i, j));
    }
}

/// Parsing the canonical form of the bare `ping` command gives that
/// command back: the round-trip law on the variant without payload.
#[verifier::rlimit(60)]
#[verifier::spinoff_prover]
pub proof fn lemma_round_trip_ping()
    ensures
        parse_cmd_spec(ser_cmd(CommandV::Ping)) == Some(CommandV::Ping),
{
    reveal_strlit("{\"type\":\"ping\"}");
    reveal_strlit("type");
    reveal_strlit("ping");
    reveal_strlit("go_to");
    reveal_strlit("lat");
    reveal_strlit("lon");
    reveal_strlit("alt_m");
    reveal_strlit("speed_mps");
    reveal_strlit("mode");
    reveal_strlit("degrees");
    reveal_strlit("duration_s");
    reveal_strlit("quality");
    reveal_strlit("take_picture");
    reveal_strlit("rotate_and_film");
    let t = "{\"type\":\"ping\"}"@;
    assert(t.len() == 15);
    assert(t[0] == '{' && t[1] == '"' && t[2] == 't' && t[3] == 'y' && t[4] == 'p' && t[5] == 'e'
        && t[6] == '"' && t[7] == ':' && t[8] == '"' && t[9] == 'p' && t[10] == 'i' && t[11]
        == 'n' && t[12] == 'g' && t[13] == '"' && t[14] == '}');
    assert(skip_ws(t, 0) == 0);
    assert(t[1] == '"');
    lemma_scan_str_plain(t, 2, 6, Seq::<char>::empty());
    assert(t.subrange(2, 6) =~= "type"@);
    assert(parse_str(t, 1) == Some(("type"@, 7int)));
    assert(skip_ws(t, 1) == 1);
    assert(skip_ws(t, 7) == 7);
    assert(skip_ws(t, 8) == 8);
    lemma_scan_str_plain(t, 9, 13, Seq::<char>::empty());
    assert(t.subrange(9, 13) =~= "ping"@);
    assert(parse_str(t, 8) == Some(("ping"@, 14int)));
    assert(is_known_key("type"@));
    assert(parse_scalar(t, 8) == Some((ScalarV::Str("ping"@), 14int)));
    assert(skip_ws(t, 14) == 14);
    let sl = set_slot(empty_slots(), "type"@, ScalarV::Str("ping"@));
    assert(parse_members(t, 1, empty_slots(), 16) == Some((sl, 15int)));
    assert(parse_object(t) == Some((sl, 15int)));
    assert(skip_ws(t, 15) == 15);
    assert(sl.ty == Some(ScalarV::Str("ping"@)));
    assert("ping"@ != "go_to"@ && "ping"@ != "take_picture"@ && "ping"@ != "rotate_and_film"@);
    assert(extract(sl) == Some(CommandV::Ping));
    assert(ser_cmd(CommandV::Ping) == t);
}

/// Parsing the canonical form of a bare `take_picture` command (no mode)
/// gives that command back.
#[verifier::rlimit(60)]
#[verifier::spinoff_prover]
pub proof fn lemma_round_trip_take_picture_bare()
    ensures
        parse_cmd_spec(ser_cmd(CommandV::TakePicture { mode: None })) == Some(
            CommandV::TakePicture { mode: None },
        ),
{
    reveal_strlit("{\"type\":\"take_picture\"}");
    reveal_strlit("type");
    reveal_strlit("ping");
    reveal_strlit("go_to");
    reveal_strlit("lat");
    reveal_strlit("lon");
    reveal_strlit("alt_m");
    reveal_strlit("speed_mps");
    reveal_strlit("mode");
    reveal_strlit("degrees");
    reveal_strlit("duration_s");
    reveal_strlit("quality");
    reveal_strlit("take_picture");
    reveal_strlit("rotate_and_film");
    let t = "{\"type\":\"take_picture\"}"@;
    assert(t.len() == 23);
    assert(t[0] == '{' && t[1] == '"' && t[2] == 't' && t[3] == 'y' && t[4] == 'p' && t[5] == 'e'
        && t[6] == '"' && t[7] == ':' && t[8] == '"' && t[9] == 't' && t[10] == 'a' && t[11]
        == 'k' && t[12] == 'e' && t[13] == '_' && t[14] == 'p' && t[15] == 'i' && t[16] == 'c'
        && t[17] == 't' && t[18] == 'u' && t[19] == 'r' && t[20] == 'e' && t[21] == '"' && t[22]
        == '}');
    assert(skip_ws(t, 0) == 0);
    lemma_scan_str_plain(t, 2, 6, Seq::<char>::empty());
    assert(t.subrange(2, 6) =~= "type"@);
    assert(parse_str(t, 1) == Some(("type"@, 7int)));
    assert(skip_ws(t, 1) == 1);
    assert(skip_ws(t, 7) == 7);
    assert(skip_ws(t, 8) == 8);
    lemma_scan_str_plain(t, 9, 21, Seq::<char>::empty());
    assert(t.subrange(9, 21) =~= "take_picture"@);
    assert(parse_str(t, 8) == Some(("take_picture"@, 22int)));
    assert(is_known_key("type"@));
    assert(parse_scalar(t, 8) == Some((ScalarV::Str("take_picture"@), 22int)));
    assert(skip_ws(t, 22) == 22);
    let sl = set_slot(empty_slots(), "type"@, ScalarV::Str("take_picture"@));
    assert(parse_members(t, 1, empty_slots(), 24) == Some((sl, 23int)));
    assert(parse_object(t) == Some((sl, 23int)));
    assert(skip_ws(t, 23) == 23);
    assert("take_picture"@ != "go_to"@);
    assert(extract(sl) == Some(CommandV::TakePicture { mode: None }));
    reveal_strlit("{\"type\":\"take_picture\"");
    reveal_strlit("}");
    assert(ser_cmd(CommandV::TakePicture { mode: None }) =~= t);
}

/// Free-form text the canonical serializer can round: any control
/// character in it is one of the named short escapes.
pub open spec fn text_wf(q: Seq<char>) -> bool {
    forall|k: int|
        0 <= k < q.len() ==> (c_is_ctrl(q[k]) ==> q[k] == '\n' || q[k] == '\r' || q[k] == '\t'
            || q[k] == '\u{0008}' || q[k] == '\u{000C}')
}

/// An escaped string body followed by a closing quote scans back to the
/// original text.
proof fn lemma_scan_str_esc(s: Seq<char>, i: int, q: Seq<char>, acc: Seq<char>)
    requires
        0 <= i,
        i + esc_str(q).len() < s.len(),
        s.subrange(i, i + esc_str(q).len()) == esc_str(q),
        s[i + esc_str(q).len()] == '"',
        text_wf(q),
    ensures
        scan_str(s, i, acc) == Some((acc + q, i + esc_str(q).len() + 1)),
    decreases q.len(),
{
    let e = esc_str(q);
    if q.len() == 0 {
        assert(e.len() == 0);
        assert(s[i] == '"');
        assert(acc + q =~= acc);
    } else {
        let c = q[0];
        let ec = esc_char(c);
        let q1 = q.skip(1);
        let e1 = esc_str(q1);
        assert(e == ec + e1);
        assert(text_wf(q1)) by {
            assert(forall|k: int| 0 <= k < q1.len() ==> q1[k] == q[k + 1]);
        }
        let i1 = i + ec.len();
        let sub = s.subrange(i, i + e.len() as int);
        assert forall|k: int| 0 <= k < e1.len() implies s.subrange(i1, i1 + e1.len() as int)[k]
            == e1[k] by {
            assert(e[ec.len() + k] == sub[ec.len() + k]);
            assert(sub[ec.len() + k] == s[i + ec.len() + k]);
            assert(e[ec.len() + k] == e1[k]);
        }
        assert(s.subrange(i1, i1 + e1.len()) =~= e1);
        assert(e[0] == sub[0]);
        assert(s[i] == e[0]);
        assert(s[i1 + e1.len()] == '"');
        if c == '"' || c == '\\' || c == '\n' || c == '\r' || c == '\t' || c == '\u{0008}' || c
            == '\u{000C}' {
            assert(ec.len() == 2);
            assert(e[1] == sub[1]);
            assert(s[i + 1] == e[1]);
            assert(e[0] == ec[0] && e[1] == ec[1]);
            assert(s[i] == '\\');
            lemma_scan_str_esc(s, i + 2, q1, acc + seq![c]);
            assert(acc + seq![c] + q1 =~= acc + q);
            assert(scan_str(s, i, acc) == Some((acc + q, i + e.len() + 1)));
        } else {
            assert(ec =~= seq![c]);
            assert(e[0] == ec[0]);
            assert(s[i] == c);
            assert(!c_is_ctrl(c));
            lemma_scan_str_esc(s, i + 1, q1, acc + seq![c]);
            assert(acc + seq![c] + q1 =~= acc + q);
            assert(scan_str(s, i, acc) == Some((acc + q, i + e.len() + 1)));
        }
    }
}

/// Parsing the canonical form of a `take_picture` command with a mode
/// gives that command back, for any mode whose control characters are
/// the named short escapes.
#[verifier::rlimit(80)]
#[verifier::spinoff_prover]
pub proof fn lemma_round_trip_take_picture(m: Seq<char>)
    requires
        text_wf(m),
    ensures
        parse_cmd_spec(ser_cmd(CommandV::TakePicture { mode: Some(m) })) == Some(
            CommandV::TakePicture { mode: Some(m) },
        ),
{
    reveal_strlit("{\"type\":\"take_picture\"");
    reveal_strlit(",\"mode\":");
    reveal_strlit("}");
    reveal_strlit("type");
    reveal_strlit("ping");
    reveal_strlit("go_to");
    reveal_strlit("lat");
    reveal_strlit("lon");
    reveal_strlit("alt_m");
    reveal_strlit("speed_mps");
    reveal_strlit("mode");
    reveal_strlit("degrees");
    reveal_strlit("duration_s");
    reveal_strlit("quality");
    reveal_strlit("take_picture");
    reveal_strlit("rotate_and_film");
    let e = esc_str(m);
    let ln = e.len() as int;
    let t = ser_cmd(CommandV::TakePicture { mode: Some(m) });
    let pre = "{\"type\":\"take_picture\""@ + ",\"mode\":"@;
    assert(pre.len() == 30);
    assert(t =~= pre + quoted(m) + "}"@);
    assert(t.len() == 33 + ln);
    assert(forall|k: int| 0 <= k < 30 ==> t[k] == pre[k]);
    assert(t[0] == '{' && t[1] == '"' && t[2] == 't' && t[3] == 'y' && t[4] == 'p' && t[5] == 'e'
        && t[6] == '"' && t[7] == ':' && t[8] == '"' && t[9] == 't' && t[10] == 'a' && t[11]
        == 'k' && t[12] == 'e' && t[13] == '_' && t[14] == 'p' && t[15] == 'i' && t[16] == 'c'
        && t[17] == 't' && t[18] == 'u' && t[19] == 'r' && t[20] == 'e' && t[21] == '"' && t[22]
        == ',' && t[23] == '"' && t[24] == 'm' && t[25] == 'o' && t[26] == 'd' && t[27] == 'e'
        && t[28] == '"' && t[29] == ':');
    assert(t[30] == '"');
    assert(forall|k: int| 31 <= k < 31 + ln ==> t[k] == e[k - 31]);
    assert(t[31 + ln] == '"');
    assert(t[32 + ln] == '}');
    assert(skip_ws(t, 0) == 0);
    assert(skip_ws(t, 1) == 1);
    lemma_scan_str_plain(t, 2, 6, Seq::<char>::empty());
    assert(t.subrange(2, 6) =~= "type"@);
    assert(parse_str(t, 1) == Some(("type"@, 7int)));
    assert(skip_ws(t, 7) == 7);
    assert(skip_ws(t, 8) == 8);
    lemma_scan_str_plain(t, 9, 21, Seq::<char>::empty());
    assert(t.subrange(9, 21) =~= "take_picture"@);
    assert(parse_str(t, 8) == Some(("take_picture"@, 22int)));
    assert(is_known_key("type"@));
    assert(parse_scalar(t, 8) == Some((ScalarV::Str("take_picture"@), 22int)));
    assert(skip_ws(t, 22) == 22);
    let sl1 = set_slot(empty_slots(), "type"@, ScalarV::Str("take_picture"@));
    assert(skip_ws(t, 23) == 23);
    lemma_scan_str_plain(t, 24, 28, Seq::<char>::empty());
    assert(t.subrange(24, 28) =~= "mode"@);
    assert(parse_str(t, 23) == Some(("mode"@, 29int)));
    assert(skip_ws(t, 29) == 29);
    assert(skip_ws(t, 30) == 30);
    assert(is_known_key("mode"@));
    assert(t.subrange(31, 31 + ln) =~= e);
    lemma_scan_str_esc(t, 31, m, Seq::<char>::empty());
    assert(scan_str(t, 31, Seq::<char>::empty()) == Some((
        Seq::<char>::empty() + m,
        32 + ln,
    )));
    assert(Seq::<char>::empty() + m =~= m);
    assert(parse_str(t, 30) == Some((m, 32 + ln)));
    assert(parse_scalar(t, 30) == Some((ScalarV::Str(m), 32 + ln)));
    let sl2 = set_slot(sl1, "mode"@, ScalarV::Str(m));
    assert(skip_ws(t, 32 + ln) == 32 + ln);
    assert(parse_members(t, 23, sl1, (t.len() + 1 - 1) as nat) == Some((sl2, 33 + ln)));
    assert(parse_members(t, 1, empty_slots(), (t.len() + 1) as nat) == Some((sl2, 33 + ln)));
    assert(parse_object(t) == Some((sl2, 33 + ln)));
    assert(skip_ws(t, 33 + ln) == 33 + ln);
    assert("take_picture"@.len() == 12 && "go_to"@.len() == 5);
    assert("take_picture"@ != "go_to"@);
    assert("mode"@[0] == 'm' && "type"@[0] == 't');
    assert("mode"@.len() == 4 && "lat"@.len() == 3 && "lon"@.len() == 3 && "alt_m"@.len() == 5
        && "speed_mps"@.len() == 9);
    assert("mode"@ != "type"@ && "mode"@ != "lat"@ && "mode"@ != "lon"@ && "mode"@ != "alt_m"@
        && "mode"@ != "speed_mps"@);
    assert(sl2.ty == Some(ScalarV::Str("take_picture"@)));
    assert(sl2.mode == Some(ScalarV::Str(m)));
    assert(opt_str(sl2.mode) == Some(Some(m)));
    assert(extract(sl2) == Some(CommandV::TakePicture { mode: Some(m) }));
}

proof fn lemma_pow10_pos(k: nat)
    ensures
        pow10(k) >= 1,
    decreases k,
{
    if k > 0 {
        lemma_pow10_pos((k - 1) as nat);
    }
}

proof fn lemma_digit_char_val(d: int)
    requires
        0 <= d < 10,
    ensures
        is_digit(digit_char(d)),
        digit_val(digit_char(d)) == d,
        digit_char(d) != '-',
{
}

/// A run of decimal digits rendered from `n` accumulates onto `acc`.
proof fn lemma_scan_dec(s: Seq<char>, i: int, n: nat, acc: int)
    requires
        0 <= i,
        i + dec_digits(n).len() <= s.len(),
        s.subrange(i, i + dec_digits(n).len() as int) == dec_digits(n),
        acc >= 0,
        acc * pow10(dec_digits(n).len()) + n <= INT_MAX as int,
    ensures
        scan_digits(s, i, acc) == scan_digits(
            s,
            i + dec_digits(n).len() as int,
            acc * pow10(dec_digits(n).len()) + n,
        ),
    decreases n,
{
    let e = dec_digits(n);
    let el = e.len() as int;
    assert(forall|k: int| 0 <= k < el ==> #[trigger] e[k] == s.subrange(i, i + el)[k]);
    if n < 10 {
        assert(e =~= seq![digit_char(n as int)]);
        lemma_digit_char_val(n as int);
        assert(e[0] == digit_char(n as int));
        assert(s.subrange(i, i + el)[0] == s[i]);
        assert(s[i] == digit_char(n as int));
        assert(pow10(0) == 1);
        assert(pow10(1) == 10);
        assert(acc * 10 + n <= INT_MAX as int);
        assert(scan_digits(s, i, acc) == scan_digits(s, i + 1, acc * 10 + n));
    } else {
        let e1 = dec_digits(n / 10);
        let l1 = e1.len() as int;
        assert(e == e1 + seq![digit_char(n as int % 10)]);
        assert(el == l1 + 1);
        assert(s.subrange(i, i + l1) =~= e1) by {
            assert(forall|k: int| 0 <= k < l1 ==> #[trigger] e1[k] == e[k]);
            assert(forall|k: int| 0 <= k < l1 ==> #[trigger] s.subrange(i, i + l1)[k] == s[i + k]);
        }
        let a = acc * pow10(e1.len());
        assert(pow10(e.len()) == 10 * pow10(e1.len()));
        lemma_pow10_pos(e1.len());
        assert(a >= 0 && a + n / 10 <= INT_MAX as int) by (nonlinear_arith)
            requires
                acc >= 0,
                pow10(e1.len()) >= 1,
                a == acc * pow10(e1.len()),
                acc * (10 * pow10(e1.len())) + n <= INT_MAX as int,
                n >= 10,
                INT_MAX as int > 0,
        ;
        lemma_scan_dec(s, i, n / 10, acc);
        assert(s[i + l1] == e[l1]);
        lemma_digit_char_val(n as int % 10);
        assert(scan_digits(s, i + l1, a + n / 10) == scan_digits(
            s,
            i + el,
            (a + n / 10) * 10 + n % 10,
        )) by {
            assert(is_digit(s[i + l1]) && digit_val(s[i + l1]) == n % 10);
            assert((a + n / 10) * 10 + n % 10 == acc * pow10(e.len()) + n) by (nonlinear_arith)
                requires
                    a == acc * pow10(e1.len()),
                    pow10(e.len()) == 10 * pow10(e1.len()),
                    n >= 10,
            ;
        }
        assert((a + n / 10) * 10 + n % 10 == acc * pow10(e.len()) + n) by (nonlinear_arith)
            requires
                a == acc * pow10(e1.len()),
                pow10(e.len()) == 10 * pow10(e1.len()),
                n >= 10,
        ;
    }
}

/// Parsing the canonical form of a bare `rotate_and_film` command (no
/// duration, no quality) gives that command back.
#[verifier::rlimit(80)]
#[verifier::spinoff_prover]
pub proof fn lemma_round_trip_rotate_bare(degrees: int)
    requires
        0 <= degrees <= 0xffff,
    ensures
        parse_cmd_spec(
            ser_cmd(CommandV::RotateAndFilm { degrees, duration_s: None, quality: None }),
        ) == Some(CommandV::RotateAndFilm { degrees, duration_s: None, quality: None }),
{
    reveal_strlit("{\"type\":\"rotate_and_film\",\"degrees\":");
    reveal_strlit("}");
    reveal_strlit("type");
    reveal_strlit("ping");
    reveal_strlit("go_to");
    reveal_strlit("lat");
    reveal_strlit("lon");
    reveal_strlit("alt_m");
    reveal_strlit("speed_mps");
    reveal_strlit("mode");
    reveal_strlit("degrees");
    reveal_strlit("duration_s");
    reveal_strlit("quality");
    reveal_strlit("take_picture");
    reveal_strlit("rotate_and_film");
    let c = CommandV::RotateAndFilm { degrees, duration_s: None, quality: None };
    let e = dec_digits(degrees as nat);
    let ln = e.len() as int;
    let t = ser_cmd(c);
    let pre = "{\"type\":\"rotate_and_film\",\"degrees\":"@;
    assert(pre.len() == 36);
    assert(t =~= pre + e + "}"@);
    assert(t.len() == 37 + ln);
    assert(forall|k: int| 0 <= k < 36 ==> t[k] == pre[k]);
    assert(t[0] == '{' && t[1] == '"' && t[2] == 't' && t[3] == 'y' && t[4] == 'p' && t[5] == 'e'
        && t[6] == '"' && t[7] == ':' && t[8] == '"' && t[9] == 'r' && t[10] == 'o' && t[11]
        == 't' && t[12] == 'a' && t[13] == 't' && t[14] == 'e' && t[15] == '_' && t[16] == 'a'
        && t[17] == 'n' && t[18] == 'd' && t[19] == '_' && t[20] == 'f' && t[21] == 'i' && t[22]
        == 'l' && t[23] == 'm' && t[24] == '"' && t[25] == ',' && t[26] == '"' && t[27] == 'd'
        && t[28] == 'e' && t[29] == 'g' && t[30] == 'r' && t[31] == 'e' && t[32] == 'e' && t[33]
        == 's' && t[34] == '"' && t[35] == ':');
    assert(forall|k: int| 36 <= k < 36 + ln ==> t[k] == e[k - 36]);
    assert(t[36 + ln] == '}');
    assert(skip_ws(t, 0) == 0);
    assert(skip_ws(t, 1) == 1);
    lemma_scan_str_plain(t, 2, 6, Seq::<char>::empty());
    assert(t.subrange(2, 6) =~= "type"@);
    assert(parse_str(t, 1) == Some(("type"@, 7int)));
    assert(skip_ws(t, 7) == 7);
    assert(skip_ws(t, 8) == 8);
    lemma_scan_str_plain(t, 9, 24, Seq::<char>::empty());
    assert(t.subrange(9, 24) =~= "rotate_and_film"@);
    assert(parse_str(t, 8) == Some(("rotate_and_film"@, 25int)));
    assert(is_known_key("type"@));
    assert(parse_scalar(t, 8) == Some((ScalarV::Str("rotate_and_film"@), 25int)));
    assert(skip_ws(t, 25) == 25);
    let sl1 = set_slot(empty_slots(), "type"@, ScalarV::Str("rotate_and_film"@));
    assert(skip_ws(t, 26) == 26);
    lemma_scan_str_plain(t, 27, 34, Seq::<char>::empty());
    assert(t.subrange(27, 34) =~= "degrees"@);
    assert(parse_str(t, 26) == Some(("degrees"@, 35int)));
    assert(skip_ws(t, 35) == 35);
    lemma_dec_digits_first(degrees as nat);
    assert(t[36] == e[0]);
    assert(skip_ws(t, 36) == 36);
    assert(is_known_key("degrees"@));
    assert(t.subrange(36, 36 + ln) =~= e);
    lemma_pow10_pos(e.len());
    lemma_scan_dec(t, 36, degrees as nat, 0);
    assert(0 * pow10(e.len()) + degrees == degrees) by (nonlinear_arith);
    assert(scan_digits(t, 36, 0) == scan_digits(t, 36 + ln, degrees));
    assert(!(36 + ln < t.len() && is_digit(t[36 + ln])));
    assert(scan_digits(t, 36 + ln, degrees) == Some((degrees, 36 + ln)));
    assert(e[0] == t.subrange(36, 36 + ln)[0]);
    lemma_dec_digits_first(degrees as nat);
    assert(is_digit(t[36]) && t[36] != '-');
    assert(t[36 + ln] != '.');
    assert(parse_num(t, 36) == Some((degrees * 10000, 36 + ln)));
    assert(-MAG_MAX <= degrees * 10000 <= MAG_MAX);
    assert(t[36] != '"');
    assert(parse_scalar(t, 36) == Some((ScalarV::Num(degrees * 10000), 36 + ln)));
    let sl2 = set_slot(sl1, "degrees"@, ScalarV::Num(degrees * 10000));
    assert(skip_ws(t, 36 + ln) == 36 + ln);
    assert(parse_members(t, 26, sl1, (t.len() + 1 - 1) as nat) == Some((sl2, 37 + ln)));
    assert(parse_members(t, 1, empty_slots(), (t.len() + 1) as nat) == Some((sl2, 37 + ln)));
    assert(parse_object(t) == Some((sl2, 37 + ln)));
    assert(skip_ws(t, 37 + ln) == 37 + ln);
    assert("rotate_and_film"@.len() == 15 && "go_to"@.len() == 5 && "take_picture"@.len() == 12);
    assert("rotate_and_film"@ != "go_to"@ && "rotate_and_film"@ != "take_picture"@);
    assert("degrees"@.len() == 7 && "type"@.len() == 4 && "lat"@.len() == 3 && "lon"@.len() == 3
        && "alt_m"@.len() == 5 && "speed_mps"@.len() == 9 && "mode"@.len() == 4);
    assert(sl2.ty == Some(ScalarV::Str("rotate_and_film"@)));
    assert(sl2.degrees == Some(ScalarV::Num(degrees * 10000)));
    assert(sl2.duration_s is None && sl2.quality is None);
    assert((degrees * 10000) % 10000 == 0 && (degrees * 10000) / 10000 == degrees)
        by (nonlinear_arith)
        requires
            0 <= degrees,
    ;
    assert(req_whole(sl2.degrees, 0xffff) == Some(degrees));
    assert(extract(sl2) == Some(c));
}

/// The first rendered digit is a digit and not a sign.
proof fn lemma_dec_digits_first(n: nat)
    ensures
        dec_digits(n).len() >= 1,
        is_digit(dec_digits(n)[0]),
        dec_digits(n)[0] != '-',
    decreases n,
{
    if n < 10 {
        lemma_digit_char_val(n as int);
    } else {
        lemma_dec_digits_first(n / 10);
        assert(dec_digits(n)[0] == dec_digits(n / 10)[0]);
    }
}

/// One known-name member followed by a comma advances the member scan by
/// one step.
proof fn lemma_member_step(
    s: Seq<char>,
    i: int,
    iq: int,
    key: Seq<char>,
    j: int,
    j2: int,
    v: ScalarV,
    e: int,
    i2: int,
    sl: SlotsV,
    fuel: nat,
)
    requires
        fuel > 0,
        skip_ws(s, i) == iq,
        0 <= iq < s.len(),
        s[iq] == '"',
        parse_str(s, iq) == Some((key, j)),
        skip_ws(s, j) == j,
        0 <= j < s.len(),
        s[j] == ':',
        skip_ws(s, j + 1) == j2,
        is_known_key(key),
        parse_scalar(s, j2) == Some((v, e)),
        skip_ws(s, e) == i2,
        0 <= i2 < s.len(),
        s[i2] == ',',
    ensures
        parse_members(s, i, sl, fuel) == parse_members(s, i2 + 1, set_slot(sl, key, v), (fuel
            - 1) as nat),
{
}

/// The last known-name member, followed by the closing brace, ends the
/// member scan.
proof fn lemma_member_last(
    s: Seq<char>,
    i: int,
    iq: int,
    key: Seq<char>,
    j: int,
    j2: int,
    v: ScalarV,
    e: int,
    i2: int,
    sl: SlotsV,
    fuel: nat,
)
    requires
        fuel > 0,
        skip_ws(s, i) == iq,
        0 <= iq < s.len(),
        s[iq] == '"',
        parse_str(s, iq) == Some((key, j)),
        skip_ws(s, j) == j,
        0 <= j < s.len(),
        s[j] == ':',
        skip_ws(s, j + 1) == j2,
        is_known_key(key),
        parse_scalar(s, j2) == Some((v, e)),
        skip_ws(s, e) == i2,
        0 <= i2 < s.len(),
        s[i2] == '}',
    ensures
        parse_members(s, i, sl, fuel) == Some((set_slot(sl, key, v), i2 + 1)),
{
}

/// A canonical fixed-point rendering parses back to its value, up to a
/// terminator that ends the number.
proof fn lemma_parse_fmt_e4(s: Seq<char>, i: int, v: int)
    requires
        0 <= i,
        i + fmt_e4(v).len() < s.len(),
        s.subrange(i, i + fmt_e4(v).len() as int) == fmt_e4(v),
        s[i + fmt_e4(v).len()] == ',' || s[i + fmt_e4(v).len()] == '}',
        -(MAG_MAX - 1) <= v <= MAG_MAX - 1,
    ensures
        parse_num(s, i) == Some((v, i + fmt_e4(v).len() as int)),
{
    let f = fmt_e4(v);
    let fl = f.len() as int;
    assert(forall|k: int| 0 <= k < fl ==> #[trigger] f[k] == s.subrange(i, i + fl)[k]);
    assert(forall|k: int| 0 <= k < fl ==> #[trigger] s.subrange(i, i + fl)[k] == s[i + k]);
    let m = if v < 0 { (-v) as nat } else { v as nat };
    let g = fmt_e4_mag(m);
    let j = if v < 0 { i + 1 } else { i };
    if v < 0 {
        assert(f == seq!['-'] + g);
        assert(s[i] == f[0]);
        assert(f[0] == '-');
        assert(forall|k: int| 0 <= k < g.len() ==> #[trigger] g[k] == f[k + 1]);
    } else {
        assert(f == g);
    }
    let e = dec_digits(m / 10000);
    let el = e.len() as int;
    assert(g == e + seq!['.'] + frac4_digits(m % 10000));
    assert(forall|k: int| 0 <= k < g.len() ==> s[j + k] == g[k]);
    assert(forall|k: int| 0 <= k < el ==> #[trigger] e[k] == g[k]);
    assert(s.subrange(j, j + el) =~= e);
    lemma_dec_digits_first(m / 10000);
    assert(s[j] == e[0]);
    assert(is_digit(s[j]) && s[j] != '-' && s[j] != '"');
    lemma_pow10_pos(e.len());
    assert(m / 10000 <= INT_MAX as int);
    lemma_scan_dec(s, j, m / 10000, 0);
    assert(0 * pow10(e.len()) + m / 10000 == m / 10000) by (nonlinear_arith);
    let k0 = j + el;
    assert(s[k0] == g[el]);
    assert(g[el] == '.');
    assert(scan_digits(s, j, 0) == scan_digits(s, k0, (m / 10000) as int));
    assert(scan_digits(s, k0, (m / 10000) as int) == Some(((m / 10000) as int, k0)));
    let x = m % 10000;
    let fr = frac4_digits(x);
    assert(s[k0 + 1] == g[el + 1] && s[k0 + 2] == g[el + 2] && s[k0 + 3] == g[el + 3] && s[k0
        + 4] == g[el + 4]);
    assert(fr[0] == g[el + 1] && fr[1] == g[el + 2] && fr[2] == g[el + 3] && fr[3] == g[el + 4]);
    let d3 = x as int / 1000 % 10;
    let d2 = x as int / 100 % 10;
    let d1 = x as int / 10 % 10;
    let d0 = x as int % 10;
    lemma_digit_char_val(d3);
    lemma_digit_char_val(d2);
    lemma_digit_char_val(d1);
    lemma_digit_char_val(d0);
    assert(s[k0 + 1] == digit_char(d3) && s[k0 + 2] == digit_char(d2) && s[k0 + 3] == digit_char(
        d1,
    ) && s[k0 + 4] == digit_char(d0));
    let t4 = k0 + 5;
    assert(t4 == i + fl);
    assert(s[t4] == ',' || s[t4] == '}');
    assert(!is_digit(s[t4]));
    assert(scan_frac(s, k0 + 1, 0, 0, false) == scan_frac(s, k0 + 2, 1, d3, false));
    assert(scan_frac(s, k0 + 2, 1, d3, false) == scan_frac(s, k0 + 3, 2, d3 * 10 + d2, false));
    assert(scan_frac(s, k0 + 3, 2, d3 * 10 + d2, false) == scan_frac(
        s,
        k0 + 4,
        3,
        (d3 * 10 + d2) * 10 + d1,
        false,
    ));
    assert(scan_frac(s, k0 + 4, 3, (d3 * 10 + d2) * 10 + d1, false) == scan_frac(
        s,
        t4,
        4,
        ((d3 * 10 + d2) * 10 + d1) * 10 + d0,
        false,
    ));
    assert(scan_frac(s, t4, 4, ((d3 * 10 + d2) * 10 + d1) * 10 + d0, false) == (
        4int,
        ((d3 * 10 + d2) * 10 + d1) * 10 + d0,
        false,
        t4,
    ));
    assert(((d3 * 10 + d2) * 10 + d1) * 10 + d0 == x) by (nonlinear_arith)
        requires
            0 <= x < 10000,
            d3 == x as int / 1000 % 10,
            d2 == x as int / 100 % 10,
            d1 == x as int / 10 % 10,
            d0 == x as int % 10,
    ;
    assert(pow10(0) == 1);
    let mag = ((m / 10000) as int) * 10000 + x * pow10(0);
    assert(mag == m) by (nonlinear_arith)
        requires
            x == m % 10000,
            mag == ((m / 10000) as int) * 10000 + x * 1,
            m >= 0,
    ;
    assert(parse_num(s, i) == Some((v, i + fl)));
}

/// Parsing the canonical form of a `go_to` command without a speed gives
/// that command back.
#[verifier::rlimit(100)]
#[verifier::spinoff_prover]
pub proof fn lemma_round_trip_go_to_bare(lat: int, lon: int, alt_m: int)
    requires
        -(MAG_MAX - 1) <= lat <= MAG_MAX - 1,
        -(MAG_MAX - 1) <= lon <= MAG_MAX - 1,
        -(MAG_MAX - 1) <= alt_m <= MAG_MAX - 1,
    ensures
        parse_cmd_spec(ser_cmd(CommandV::GoTo { lat, lon, alt_m, speed_mps: None })) == Some(
            CommandV::GoTo { lat, lon, alt_m, speed_mps: None },
        ),
{
    reveal_strlit("{\"type\":\"go_to\",\"lat\":");
    reveal_strlit(",\"lon\":");
    reveal_strlit(",\"alt_m\":");
    reveal_strlit("}");
    reveal_strlit("type");
    reveal_strlit("ping");
    reveal_strlit("go_to");
    reveal_strlit("lat");
    reveal_strlit("lon");
    reveal_strlit("alt_m");
    reveal_strlit("speed_mps");
    reveal_strlit("mode");
    reveal_strlit("degrees");
    reveal_strlit("duration_s");
    reveal_strlit("quality");
    reveal_strlit("take_picture");
    reveal_strlit("rotate_and_film");
    let c = CommandV::GoTo { lat, lon, alt_m, speed_mps: None };
    let f1 = fmt_e4(lat);
    let f2 = fmt_e4(lon);
    let f3 = fmt_e4(alt_m);
    let l1 = f1.len() as int;
    let l2 = f2.len() as int;
    let l3 = f3.len() as int;
    let p0 = "{\"type\":\"go_to\",\"lat\":"@;
    let p1 = ",\"lon\":"@;
    let p2 = ",\"alt_m\":"@;
    assert(p0.len() == 22 && p1.len() == 7 && p2.len() == 9);
    let t = ser_cmd(c);
    assert(t =~= p0 + f1 + p1 + f2 + p2 + f3 + "}"@);
    let o1 = 22int;
    let o2 = o1 + l1 + 7;
    let o3 = o2 + l2 + 9;
    assert(t.len() == o3 + l3 + 1);
    assert(forall|k: int| 0 <= k < 22 ==> t[k] == p0[k]);
    assert(forall|k: int| 0 <= k < l1 ==> t[o1 + k] == f1[k]);
    assert(forall|k: int| 0 <= k < 7 ==> t[o1 + l1 + k] == p1[k]);
    assert(forall|k: int| 0 <= k < l2 ==> t[o2 + k] == f2[k]);
    assert(forall|k: int| 0 <= k < 9 ==> t[o2 + l2 + k] == p2[k]);
    assert(forall|k: int| 0 <= k < l3 ==> t[o3 + k] == f3[k]);
    assert(t[o3 + l3] == '}');
    assert(t[0] == '{' && t[1] == '"' && t[2] == 't' && t[3] == 'y' && t[4] == 'p' && t[5] == 'e'
        && t[6] == '"' && t[7] == ':' && t[8] == '"' && t[9] == 'g' && t[10] == 'o' && t[11]
        == '_' && t[12] == 't' && t[13] == 'o' && t[14] == '"' && t[15] == ',' && t[16] == '"'
        && t[17] == 'l' && t[18] == 'a' && t[19] == 't' && t[20] == '"' && t[21] == ':');
    assert(t[o1 + l1] == ',' && t[o1 + l1 + 1] == '"' && t[o1 + l1 + 2] == 'l' && t[o1 + l1 + 3]
        == 'o' && t[o1 + l1 + 4] == 'n' && t[o1 + l1 + 5] == '"' && t[o1 + l1 + 6] == ':');
    assert(t[o2 + l2] == ',' && t[o2 + l2 + 1] == '"' && t[o2 + l2 + 2] == 'a' && t[o2 + l2 + 3]
        == 'l' && t[o2 + l2 + 4] == 't' && t[o2 + l2 + 5] == '_' && t[o2 + l2 + 6] == 'm' && t[o2
        + l2 + 7] == '"' && t[o2 + l2 + 8] == ':');
    // member: type
    assert(skip_ws(t, 0) == 0);
    assert(skip_ws(t, 1) == 1);
    lemma_scan_str_plain(t, 2, 6, Seq::<char>::empty());
    assert(t.subrange(2, 6) =~= "type"@);
    assert(parse_str(t, 1) == Some(("type"@, 7int)));
    assert(skip_ws(t, 7) == 7);
    assert(skip_ws(t, 8) == 8);
    lemma_scan_str_plain(t, 9, 14, Seq::<char>::empty());
    assert(t.subrange(9, 14) =~= "go_to"@);
    assert(parse_str(t, 8) == Some(("go_to"@, 15int)));
    assert(is_known_key("type"@));
    assert(parse_scalar(t, 8) == Some((ScalarV::Str("go_to"@), 15int)));
    assert(skip_ws(t, 15) == 15);
    let s1 = set_slot(empty_slots(), "type"@, ScalarV::Str("go_to"@));
    // member: lat
    assert(skip_ws(t, 16) == 16);
    lemma_scan_str_plain(t, 17, 20, Seq::<char>::empty());
    assert(t.subrange(17, 20) =~= "lat"@);
    assert(parse_str(t, 16) == Some(("lat"@, 21int)));
    assert(skip_ws(t, 21) == 21);
    assert(t.subrange(o1, o1 + l1) =~= f1);
    lemma_parse_fmt_e4(t, o1, lat);
    assert(skip_ws(t, o1) == o1) by {
        assert(t[o1] == f1[0]);
        if lat < 0 {
        } else {
            lemma_dec_digits_first(lat as nat / 10000);
        }
    }
    assert(t[o1] != '"') by {
        if lat >= 0 {
            lemma_dec_digits_first(lat as nat / 10000);
        }
    }
    assert(is_known_key("lat"@));
    assert(parse_scalar(t, o1) == Some((ScalarV::Num(lat), o1 + l1)));
    let s2 = set_slot(s1, "lat"@, ScalarV::Num(lat));
    assert(skip_ws(t, o1 + l1) == o1 + l1);
    // member: lon
    assert(skip_ws(t, o1 + l1 + 1) == o1 + l1 + 1);
    lemma_scan_str_plain(t, o1 + l1 + 2, o1 + l1 + 5, Seq::<char>::empty());
    assert(t.subrange(o1 + l1 + 2, o1 + l1 + 5) =~= "lon"@);
    assert(parse_str(t, o1 + l1 + 1) == Some(("lon"@, o1 + l1 + 6)));
    assert(skip_ws(t, o1 + l1 + 6) == o1 + l1 + 6);
    assert(t.subrange(o2, o2 + l2) =~= f2);
    lemma_parse_fmt_e4(t, o2, lon);
    assert(skip_ws(t, o2) == o2 && t[o2] != '"') by {
        assert(t[o2] == f2[0]);
        if lon >= 0 {
            lemma_dec_digits_first(lon as nat / 10000);
        }
    }
    assert(is_known_key("lon"@));
    assert(parse_scalar(t, o2) == Some((ScalarV::Num(lon), o2 + l2)));
    let s3 = set_slot(s2, "lon"@, ScalarV::Num(lon));
    assert(skip_ws(t, o2 + l2) == o2 + l2);
    // member: alt_m
    assert(skip_ws(t, o2 + l2 + 1) == o2 + l2 + 1);
    lemma_scan_str_plain(t, o2 + l2 + 2, o2 + l2 + 7, Seq::<char>::empty());
    assert(t.subrange(o2 + l2 + 2, o2 + l2 + 7) =~= "alt_m"@);
    assert(parse_str(t, o2 + l2 + 1) == Some(("alt_m"@, o2 + l2 + 8)));
    assert(skip_ws(t, o2 + l2 + 8) == o2 + l2 + 8);
    assert(t.subrange(o3, o3 + l3) =~= f3);
    lemma_parse_fmt_e4(t, o3, alt_m);
    assert(skip_ws(t, o3) == o3 && t[o3] != '"') by {
        assert(t[o3] == f3[0]);
        if alt_m >= 0 {
            lemma_dec_digits_first(alt_m as nat / 10000);
        }
    }
    assert(is_known_key("alt_m"@));
    assert(parse_scalar(t, o3) == Some((ScalarV::Num(alt_m), o3 + l3)));
    let s4 = set_slot(s3, "alt_m"@, ScalarV::Num(alt_m));
    assert(skip_ws(t, o3 + l3) == o3 + l3);
    // close
    let fuel = (t.len() + 1) as nat;
    lemma_member_step(
        t,
        1,
        1,
        "type"@,
        7,
        8,
        ScalarV::Str("go_to"@),
        15,
        15,
        empty_slots(),
        fuel,
    );
    lemma_member_step(
        t,
        16,
        16,
        "lat"@,
        21,
        o1,
        ScalarV::Num(lat),
        o1 + l1,
        o1 + l1,
        s1,
        (fuel - 1) as nat,
    );
    lemma_member_step(
        t,
        o1 + l1 + 1,
        o1 + l1 + 1,
        "lon"@,
        o1 + l1 + 6,
        o2,
        ScalarV::Num(lon),
        o2 + l2,
        o2 + l2,
        s2,
        (fuel - 2) as nat,
    );
    lemma_member_last(
        t,
        o2 + l2 + 1,
        o2 + l2 + 1,
        "alt_m"@,
        o2 + l2 + 8,
        o3,
        ScalarV::Num(alt_m),
        o3 + l3,
        o3 + l3,
        s3,
        (fuel - 3) as nat,
    );
    assert(parse_members(t, 1, empty_slots(), fuel) == Some((s4, o3 + l3 + 1)));
    assert(parse_object(t) == Some((s4, o3 + l3 + 1)));
    assert(skip_ws(t, o3 + l3 + 1) == t.len());
    // extraction
    assert("go_to"@.len() == 5 && "lat"@.len() == 3 && "lon"@.len() == 3 && "alt_m"@.len() == 5
        && "type"@.len() == 4 && "speed_mps"@.len() == 9 && "mode"@.len() == 4 && "degrees"@.len()
        == 7 && "duration_s"@.len() == 10 && "quality"@.len() == 7);
    assert("lat"@[0] == 'l' && "lon"@[0] == 'l' && "lat"@[1] == 'a' && "lon"@[1] == 'o'
        && "alt_m"@[0] == 'a' && "type"@[0] == 't' && "mode"@[0] == 'm' && "quality"@[0] == 'q'
        && "degrees"@[0] == 'd');
    assert(s4.ty == Some(ScalarV::Str("go_to"@)));
    assert(s4.lat == Some(ScalarV::Num(lat)));
    assert(s4.lon == Some(ScalarV::Num(lon)));
    assert(s4.alt_m == Some(ScalarV::Num(alt_m)));
    assert(s4.speed_mps is None);
    assert(extract(s4) == Some(c));
}

} // verus!
