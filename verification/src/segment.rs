//! Message segmentation.
//!
//! A raw chat message is split into an ordered sequence of typed segments:
//! plain text to synthesize, a marker standing for a recognized URL, or a
//! soundboard reference. A URL is a scheme-like word followed by `://` and at
//! least one further non-whitespace character; it runs to the next whitespace.
//! The text around URLs is split at line breaks, each piece is trimmed, empty
//! pieces are dropped, and a piece that is exactly a soundboard token
//! (`<sound:ID>` or `<sound:ID:GROUP>` with decimal ids that fit 64 bits)
//! becomes a reference instead of text.

use vstd::prelude::*;

verus! {

// ---------------------------------------------------------------------------
// Segments and their model
// ---------------------------------------------------------------------------

/// Mathematical model of one segment.
pub ghost enum SegModel {
    Text(Seq<char>),
    Url,
    Sound { sound_id: u64, guild_id: Option<u64> },
}

/// One unit of a chat message after splitting, in emission order.
#[derive(Debug, Clone, PartialEq, Eq)]
pub enum Segment {
    /// Plain text, eligible for synthesis.
    Text(String),
    /// Placeholder for the fixed URL-substitution clip.
    UrlMarker,
    /// A persisted sound, by id and optional group id.
    SoundboardRef { sound_id: u64, guild_id: Option<u64> },
}

impl View for Segment {
    type V = SegModel;

    open spec fn view(&self) -> SegModel {
        match self {
            Segment::Text(s) => SegModel::Text(s@),
            Segment::UrlMarker => SegModel::Url,
            Segment::SoundboardRef { sound_id, guild_id } => SegModel::Sound {
                sound_id: *sound_id,
                guild_id: *guild_id,
            },
        }
    }
}

/// The models of a sequence of segments.
pub open spec fn seg_models(v: Seq<Segment>) -> Seq<SegModel> {
    v.map_values(|seg: Segment| seg@)
}

// ---------------------------------------------------------------------------
// Character classes
// ---------------------------------------------------------------------------

/// The Unicode whitespace characters, as line trimming sees them.
pub open spec fn is_space_c(c: char) -> bool {
    (9 <= c as u32 && c as u32 <= 13) || c as u32 == 32 || c as u32 == 0x85 || c as u32 == 0xA0
        || c as u32 == 0x1680 || (0x2000 <= c as u32 && c as u32 <= 0x200A) || c as u32 == 0x2028
        || c as u32 == 0x2029 || c as u32 == 0x202F || c as u32 == 0x205F || c as u32 == 0x3000
}

pub open spec fn is_alpha_c(c: char) -> bool {
    (65 <= c as u32 && c as u32 <= 90) || (97 <= c as u32 && c as u32 <= 122)
}

pub open spec fn is_digit_c(c: char) -> bool {
    48 <= c as u32 && c as u32 <= 57
}

/// Characters allowed in a URL scheme after its leading letter.
pub open spec fn is_scheme_tail_c(c: char) -> bool {
    is_alpha_c(c) || is_digit_c(c) || c as u32 == 43 || c as u32 == 45 || c as u32 == 46
}

pub open spec fn is_newline_c(c: char) -> bool {
    c as u32 == 10
}

fn is_space_x(c: char) -> (r: bool)
    ensures
        r == is_space_c(c),
{
    (9 <= c as u32 && c as u32 <= 13) || c as u32 == 32 || c as u32 == 0x85 || c as u32 == 0xA0
        || c as u32 == 0x1680 || (0x2000 <= c as u32 && c as u32 <= 0x200A) || c as u32 == 0x2028
        || c as u32 == 0x2029 || c as u32 == 0x202F || c as u32 == 0x205F || c as u32 == 0x3000
}

fn is_alpha_x(c: char) -> (r: bool)
    ensures
        r == is_alpha_c(c),
{
    (65 <= c as u32 && c as u32 <= 90) || (97 <= c as u32 && c as u32 <= 122)
}

fn is_digit_x(c: char) -> (r: bool)
    ensures
        r == is_digit_c(c),
{
    48 <= c as u32 && c as u32 <= 57
}

fn is_scheme_tail_x(c: char) -> (r: bool)
    ensures
        r == is_scheme_tail_c(c),
{
    is_alpha_x(c) || is_digit_x(c) || c as u32 == 43 || c as u32 == 45 || c as u32 == 46
}

// ---------------------------------------------------------------------------
// Scanners
// ---------------------------------------------------------------------------

/// End of the run of scheme-tail characters starting at `i`.
pub open spec fn scheme_tail_end(s: Seq<char>, i: int) -> int
    decreases s.len() - i,
    when 0 <= i <= s.len()
{
    if i == s.len() {
        i
    } else if is_scheme_tail_c(s[i]) {
        scheme_tail_end(s, i + 1)
    } else {
        i
    }
}

/// First whitespace index at or after `i`, or the length.
pub open spec fn nonspace_end(s: Seq<char>, i: int) -> int
    decreases s.len() - i,
    when 0 <= i <= s.len()
{
    if i == s.len() {
        i
    } else if is_space_c(s[i]) {
        i
    } else {
        nonspace_end(s, i + 1)
    }
}

/// A URL begins at `i`: a letter, a run of scheme-tail characters, `://`, and
/// at least one non-whitespace character after that.
pub open spec fn url_at(s: Seq<char>, i: int) -> bool {
    0 <= i < s.len() && is_alpha_c(s[i]) && {
        let r = scheme_tail_end(s, i + 1);
        r + 3 < s.len() && s[r] == ':' && s[r + 1] == '/' && s[r + 2] == '/' && !is_space_c(
            s[r + 3],
        )
    }
}

/// A segmentation break: a line break or the start of a URL.
pub open spec fn boundary_at(s: Seq<char>, i: int) -> bool {
    is_newline_c(s[i]) || url_at(s, i)
}

/// First break at or after `i`, or the length.
pub open spec fn next_boundary(s: Seq<char>, i: int) -> int
    decreases s.len() - i,
    when 0 <= i <= s.len()
{
    if i == s.len() {
        i
    } else if boundary_at(s, i) {
        i
    } else {
        next_boundary(s, i + 1)
    }
}

proof fn lemma_scheme_tail_end_bounds(s: Seq<char>, i: int)
    requires
        0 <= i <= s.len(),
    ensures
        i <= scheme_tail_end(s, i) <= s.len(),
    decreases s.len() - i,
{
    if i < s.len() && is_scheme_tail_c(s[i]) {
        lemma_scheme_tail_end_bounds(s, i + 1);
    }
}

proof fn lemma_nonspace_end_bounds(s: Seq<char>, i: int)
    requires
        0 <= i <= s.len(),
    ensures
        i <= nonspace_end(s, i) <= s.len(),
    decreases s.len() - i,
{
    if i < s.len() && !is_space_c(s[i]) {
        lemma_nonspace_end_bounds(s, i + 1);
    }
}

proof fn lemma_next_boundary_bounds(s: Seq<char>, i: int)
    requires
        0 <= i <= s.len(),
    ensures
        i <= next_boundary(s, i) <= s.len(),
        next_boundary(s, i) < s.len() ==> boundary_at(s, next_boundary(s, i)),
    decreases s.len() - i,
{
    if i < s.len() && !boundary_at(s, i) {
        lemma_next_boundary_bounds(s, i + 1);
    }
}

// ---------------------------------------------------------------------------
// Trimming
// ---------------------------------------------------------------------------

/// First non-whitespace index in `[i, b)`, or `b`.
pub open spec fn skip_space(s: Seq<char>, i: int, b: int) -> int
    decreases b - i,
    when 0 <= i <= b <= s.len()
{
    if i == b {
        i
    } else if is_space_c(s[i]) {
        skip_space(s, i + 1, b)
    } else {
        i
    }
}

/// End of the line `[a, j)` with trailing whitespace removed.
pub open spec fn rskip_space(s: Seq<char>, a: int, j: int) -> int
    decreases j - a,
    when 0 <= a <= j <= s.len()
{
    if j == a {
        j
    } else if is_space_c(s[j - 1]) {
        rskip_space(s, a, j - 1)
    } else {
        j
    }
}

/// The line `[a, b)` of `s` with surrounding whitespace removed.
pub open spec fn trimmed(s: Seq<char>, a: int, b: int) -> Seq<char> {
    let a2 = skip_space(s, a, b);
    let b2 = rskip_space(s, a2, b);
    s.subrange(a2, b2)
}

proof fn lemma_skip_space_bounds(s: Seq<char>, i: int, b: int)
    requires
        0 <= i <= b <= s.len(),
    ensures
        i <= skip_space(s, i, b) <= b,
    decreases b - i,
{
    if i < b && is_space_c(s[i]) {
        lemma_skip_space_bounds(s, i + 1, b);
    }
}

proof fn lemma_rskip_space_bounds(s: Seq<char>, a: int, j: int)
    requires
        0 <= a <= j <= s.len(),
    ensures
        a <= rskip_space(s, a, j) <= j,
    decreases j - a,
{
    if j > a && is_space_c(s[j - 1]) {
        lemma_rskip_space_bounds(s, a, j - 1);
    }
}

// ---------------------------------------------------------------------------
// Soundboard tokens
// ---------------------------------------------------------------------------

/// End of the run of decimal digits starting at `i`.
pub open spec fn digit_end(s: Seq<char>, i: int) -> int
    decreases s.len() - i,
    when 0 <= i <= s.len()
{
    if i == s.len() {
        i
    } else if is_digit_c(s[i]) {
        digit_end(s, i + 1)
    } else {
        i
    }
}

/// Value of the decimal digits at `[a, j)`.
pub open spec fn digits_val(s: Seq<char>, a: int, j: int) -> int
    decreases j - a,
    when 0 <= a <= j
{
    if j <= a {
        0
    } else {
        digits_val(s, a, j - 1) * 10 + (s[j - 1] as u32 - 48)
    }
}

/// A whole line that is one soundboard token: `<sound:` then digits, then
/// either `>` or `:`, more digits, and `>`. A digit run of any length counts,
/// as long as its value fits an unsigned 64-bit id.
pub open spec fn is_soundmoji(t: Seq<char>) -> bool {
    t.len() >= 9 && t[0] == '<' && t[1] == 's' && t[2] == 'o' && t[3] == 'u' && t[4] == 'n' && t[5]
        == 'd' && t[6] == ':' && {
        let d1 = digit_end(t, 7);
        7 < d1 && d1 < t.len() && digits_val(t, 7, d1) <= u64::MAX && ((t[d1] == '>' && d1
            == t.len() - 1) || (t[d1] == ':' && {
            let d2 = digit_end(t, d1 + 1);
            d1 + 1 < d2 && d2 == t.len() - 1 && t[d2] == '>' && digits_val(t, d1 + 1, d2)
                <= u64::MAX
        }))
    }
}

/// The sound id a soundboard token carries.
pub open spec fn sound_id_of(t: Seq<char>) -> u64 {
    digits_val(t, 7, digit_end(t, 7)) as u64
}

/// The optional group id a soundboard token carries.
pub open spec fn guild_id_of(t: Seq<char>) -> Option<u64> {
    let d1 = digit_end(t, 7);
    if t[d1] == '>' {
        None
    } else {
        Some(digits_val(t, d1 + 1, digit_end(t, d1 + 1)) as u64)
    }
}

/// The segments one trimmed line contributes: nothing when empty, one
/// soundboard reference when it is exactly a token, one text segment
/// otherwise.
pub open spec fn classify(t: Seq<char>) -> Seq<SegModel> {
    if t.len() == 0 {
        Seq::empty()
    } else if is_soundmoji(t) {
        seq![SegModel::Sound { sound_id: sound_id_of(t), guild_id: guild_id_of(t) }]
    } else {
        seq![SegModel::Text(t)]
    }
}

// ---------------------------------------------------------------------------
// The segmentation
// ---------------------------------------------------------------------------

/// The segments of `s` from position `i` on: the stretch up to the next break
/// is trimmed and classified; a line break is skipped; a URL becomes a marker
/// and scanning resumes at the whitespace that ends it.
pub open spec fn segs_from(s: Seq<char>, i: int) -> Seq<SegModel>
    decreases s.len() - i,
    when 0 <= i <= s.len()
    via segs_from_dec
{
    let b = next_boundary(s, i);
    let line = classify(trimmed(s, i, b));
    if b == s.len() {
        line
    } else if is_newline_c(s[b]) {
        line + segs_from(s, b + 1)
    } else {
        line + seq![SegModel::Url] + segs_from(s, nonspace_end(s, b))
    }
}

#[via_fn]
proof fn segs_from_dec(s: Seq<char>, i: int) {
    lemma_next_boundary_bounds(s, i);
    let b = next_boundary(s, i);
    if b < s.len() && !is_newline_c(s[b]) {
        assert(url_at(s, b));
        assert(!is_space_c(s[b]));
        lemma_nonspace_end_bounds(s, b);
        assert(nonspace_end(s, b) == nonspace_end(s, b + 1));
        lemma_nonspace_end_bounds(s, b + 1);
    }
}

/// The segments of a whole message.
pub open spec fn spec_segments(s: Seq<char>) -> Seq<SegModel> {
    segs_from(s, 0)
}

// ---------------------------------------------------------------------------
// Executable scanners
// ---------------------------------------------------------------------------

fn scheme_tail_end_x(s: &str, i: usize) -> (r: usize)
    requires
        i <= s@.len(),
    ensures
        r == scheme_tail_end(s@, i as int),
{
    let n = s.unicode_len();
    let mut j = i;
    while j < n
        invariant
            i <= j <= n,
            n == s@.len(),
            scheme_tail_end(s@, i as int) == scheme_tail_end(s@, j as int),
        decreases n - j,
    {
        if is_scheme_tail_x(s.get_char(j)) {
            j = j + 1;
        } else {
            return j;
        }
    }
    j
}

fn nonspace_end_x(s: &str, i: usize) -> (r: usize)
    requires
        i <= s@.len(),
    ensures
        r == nonspace_end(s@, i as int),
{
    let n = s.unicode_len();
    let mut j = i;
    while j < n
        invariant
            i <= j <= n,
            n == s@.len(),
            nonspace_end(s@, i as int) == nonspace_end(s@, j as int),
        decreases n - j,
    {
        if is_space_x(s.get_char(j)) {
            return j;
        } else {
            j = j + 1;
        }
    }
    j
}

fn digit_end_x(s: &str, i: usize) -> (r: usize)
    requires
        i <= s@.len(),
    ensures
        r == digit_end(s@, i as int),
{
    let n = s.unicode_len();
    let mut j = i;
    while j < n
        invariant
            i <= j <= n,
            n == s@.len(),
            digit_end(s@, i as int) == digit_end(s@, j as int),
        decreases n - j,
    {
        if is_digit_x(s.get_char(j)) {
            j = j + 1;
        } else {
            return j;
        }
    }
    j
}

fn url_at_x(s: &str, i: usize) -> (r: bool)
    requires
        i <= s@.len(),
    ensures
        r == url_at(s@, i as int),
{
    let n = s.unicode_len();
    if i == n {
        return false;
    }
    if !is_alpha_x(s.get_char(i)) {
        return false;
    }
    let tail = scheme_tail_end_x(s, i + 1);
    proof {
        lemma_scheme_tail_end_bounds(s@, i + 1);
    }
    if n - tail < 4 {
        return false;
    }
    s.get_char(tail) == ':' && s.get_char(tail + 1) == '/' && s.get_char(tail + 2) == '/'
        && !is_space_x(s.get_char(tail + 3))
}

fn next_boundary_x(s: &str, i: usize) -> (r: usize)
    requires
        i <= s@.len(),
    ensures
        r == next_boundary(s@, i as int),
{
    let n = s.unicode_len();
    let mut j = i;
    while j < n
        invariant
            i <= j <= n,
            n == s@.len(),
            next_boundary(s@, i as int) == next_boundary(s@, j as int),
        decreases n - j,
    {
        if s.get_char(j) as u32 == 10 {
            return j;
        }
        if url_at_x(s, j) {
            return j;
        }
        j = j + 1;
    }
    j
}

fn skip_space_x(s: &str, i: usize, b: usize) -> (r: usize)
    requires
        i <= b <= s@.len(),
    ensures
        r == skip_space(s@, i as int, b as int),
{
    let mut j = i;
    while j < b
        invariant
            i <= j <= b <= s@.len(),
            skip_space(s@, i as int, b as int) == skip_space(s@, j as int, b as int),
        decreases b - j,
    {
        if is_space_x(s.get_char(j)) {
            j = j + 1;
        } else {
            return j;
        }
    }
    j
}

fn rskip_space_x(s: &str, a: usize, j: usize) -> (r: usize)
    requires
        a <= j <= s@.len(),
    ensures
        r == rskip_space(s@, a as int, j as int),
{
    let mut k = j;
    while k > a
        invariant
            a <= k <= j <= s@.len(),
            rskip_space(s@, a as int, j as int) == rskip_space(s@, a as int, k as int),
        decreases k,
    {
        if is_space_x(s.get_char(k - 1)) {
            k = k - 1;
        } else {
            return k;
        }
    }
    k
}

// ---------------------------------------------------------------------------
// Digit parsing
// ---------------------------------------------------------------------------

proof fn lemma_digit_end_digits(s: Seq<char>, i: int)
    requires
        0 <= i <= s.len(),
    ensures
        i <= digit_end(s, i) <= s.len(),
        forall|k: int| i <= k < digit_end(s, i) ==> is_digit_c(#[trigger] s[k]),
    decreases s.len() - i,
{
    if i < s.len() && is_digit_c(s[i]) {
        lemma_digit_end_digits(s, i + 1);
    }
}

proof fn lemma_digits_val_nonneg(s: Seq<char>, a: int, j: int)
    requires
        0 <= a <= j <= s.len(),
        forall|k: int| a <= k < j ==> is_digit_c(#[trigger] s[k]),
    ensures
        digits_val(s, a, j) >= 0,
    decreases j - a,
{
    if j > a {
        lemma_digits_val_nonneg(s, a, j - 1);
    }
}

/// Appending digits never shrinks the value they spell.
proof fn lemma_digits_val_grows(s: Seq<char>, a: int, i: int, j: int)
    requires
        0 <= a <= i <= j <= s.len(),
        forall|k: int| a <= k < j ==> is_digit_c(#[trigger] s[k]),
    ensures
        digits_val(s, a, i) <= digits_val(s, a, j),
    decreases j - i,
{
    if i < j {
        lemma_digits_val_grows(s, a, i, j - 1);
        lemma_digits_val_nonneg(s, a, j - 1);
    }
}

/// The value the digits at `[a, b)` spell, or nothing when it exceeds a
/// 64-bit id.
fn parse_digits(s: &str, a: usize, b: usize) -> (r: Option<u64>)
    requires
        a <= b <= s@.len(),
        forall|k: int| a <= k < b ==> is_digit_c(#[trigger] s@[k]),
    ensures
        match r {
            Some(v) => v as int == digits_val(s@, a as int, b as int),
            None => digits_val(s@, a as int, b as int) > u64::MAX,
        },
{
    let mut acc: u64 = 0;
    let mut i = a;
    while i < b
        invariant
            a <= i <= b <= s@.len(),
            forall|k: int| a <= k < b ==> is_digit_c(#[trigger] s@[k]),
            acc as int == digits_val(s@, a as int, i as int),
        decreases b - i,
    {
        let c = s.get_char(i);
        let d = (c as u32 - 48) as u64;
        if acc > (u64::MAX - d) / 10 {
            proof {
                lemma_digits_val_grows(s@, a as int, i + 1, b as int);
            }
            return None;
        }
        acc = acc * 10 + d;
        i = i + 1;
    }
    Some(acc)
}

// ---------------------------------------------------------------------------
// Classification
// ---------------------------------------------------------------------------

/// Parse a whole line as a soundboard token, returning its sound id and
/// optional group id.
pub fn parse_soundmoji(t: &str) -> (r: Option<(u64, Option<u64>)>)
    ensures
        match r {
            Some(ids) => is_soundmoji(t@) && ids.0 == sound_id_of(t@) && ids.1 == guild_id_of(t@),
            None => !is_soundmoji(t@),
        },
{
    let n = t.unicode_len();
    if n < 9 {
        return None;
    }
    if !(t.get_char(0) == '<' && t.get_char(1) == 's' && t.get_char(2) == 'o' && t.get_char(3)
        == 'u' && t.get_char(4) == 'n' && t.get_char(5) == 'd' && t.get_char(6) == ':') {
        return None;
    }
    let d1 = digit_end_x(t, 7);
    proof {
        lemma_digit_end_digits(t@, 7);
        lemma_digits_val_nonneg(t@, 7, d1 as int);
    }
    if !(7 < d1 && d1 < n) {
        return None;
    }
    let c1 = t.get_char(d1);
    if c1 == '>' {
        if d1 == n - 1 {
            match parse_digits(t, 7, d1) {
                Some(sid) => Some((sid, None)),
                None => None,
            }
        } else {
            None
        }
    } else if c1 == ':' {
        let d2 = digit_end_x(t, d1 + 1);
        proof {
            lemma_digit_end_digits(t@, d1 + 1);
            lemma_digits_val_nonneg(t@, d1 + 1, d2 as int);
        }
        if d1 + 1 < d2 && d2 == n - 1 && t.get_char(d2) == '>' {
            match parse_digits(t, 7, d1) {
                Some(sid) => match parse_digits(t, d1 + 1, d2) {
                    Some(gid) => Some((sid, Some(gid))),
                    None => None,
                },
                None => None,
            }
        } else {
            None
        }
    } else {
        None
    }
}

/// The segment one trimmed line contributes, if any.
fn classify_str(t: &str) -> (r: Option<Segment>)
    ensures
        classify(t@) == (match r {
            Some(seg) => seq![seg@],
            None => Seq::<SegModel>::empty(),
        }),
{
    if t.unicode_len() == 0 {
        return None;
    }
    match parse_soundmoji(t) {
        Some((sid, gid)) => Some(Segment::SoundboardRef { sound_id: sid, guild_id: gid }),
        None => Some(Segment::Text(t.to_owned())),
    }
}

// ---------------------------------------------------------------------------
// The segmenter
// ---------------------------------------------------------------------------

proof fn lemma_seg_models_push(v: Seq<Segment>, seg: Segment)
    ensures
        seg_models(v.push(seg)) == seg_models(v).push(seg@),
{
    assert(seg_models(v.push(seg)) =~= seg_models(v).push(seg@));
}

proof fn lemma_segs_from_at_end(s: Seq<char>)
    ensures
        segs_from(s, s.len() as int) == Seq::<SegModel>::empty(),
{
    let n = s.len() as int;
    assert(next_boundary(s, n) == n);
    assert(skip_space(s, n, n) == n);
    assert(rskip_space(s, n, n) == n);
    assert(trimmed(s, n, n).len() == 0);
}

/// Split a message into its ordered segments.
pub fn segment(text: &str) -> (out: Vec<Segment>)
    ensures
        seg_models(out@) == spec_segments(text@),
{
    let ghost s = text@;
    let n = text.unicode_len();
    let mut out: Vec<Segment> = Vec::new();
    let mut i: usize = 0;
    while i < n
        invariant
            i <= n,
            n == s.len(),
            s == text@,
            seg_models(out@) + segs_from(s, i as int) == spec_segments(s),
        decreases n - i,
    {
        let ghost i0 = i as int;
        let ghost out0 = out@;
        let b = next_boundary_x(text, i);
        proof {
            lemma_next_boundary_bounds(s, i0);
        }
        let a2 = skip_space_x(text, i, b);
        proof {
            lemma_skip_space_bounds(s, i0, b as int);
        }
        let b2 = rskip_space_x(text, a2, b);
        proof {
            lemma_rskip_space_bounds(s, a2 as int, b as int);
        }
        let ghost line = classify(trimmed(s, i0, b as int));
        if a2 < b2 {
            let t = text.substring_char(a2, b2);
            assert(t@ == trimmed(s, i0, b as int));
            match classify_str(t) {
                Some(seg) => {
                    proof {
                        lemma_seg_models_push(out0, seg);
                        assert(seg_models(out0).push(seg@) =~= seg_models(out0) + line);
                    }
                    out.push(seg);
                },
                None => {
                    assert(seg_models(out@) =~= seg_models(out0) + line);
                },
            }
        } else {
            assert(trimmed(s, i0, b as int).len() == 0);
            assert(seg_models(out@) =~= seg_models(out0) + line);
        }
        assert(seg_models(out@) == seg_models(out0) + line);
        if b == n {
            proof {
                lemma_segs_from_at_end(s);
                assert(segs_from(s, i0) == line);
                assert(seg_models(out@) + segs_from(s, n as int) =~= seg_models(out0) + segs_from(
                    s,
                    i0,
                ));
            }
            i = n;
        } else {
            let cb = text.get_char(b);
            if cb as u32 == 10 {
                proof {
                    assert(segs_from(s, i0) == line + segs_from(s, b + 1));
                    assert(seg_models(out@) + segs_from(s, b + 1) =~= seg_models(out0) + segs_from(
                        s,
                        i0,
                    ));
                }
                i = b + 1;
            } else {
                assert(url_at(s, b as int));
                assert(!is_space_c(s[b as int]));
                proof {
                    lemma_nonspace_end_bounds(s, b as int);
                    assert(nonspace_end(s, b as int) == nonspace_end(s, b + 1));
                    lemma_nonspace_end_bounds(s, b + 1);
                }
                let ghost out1 = out@;
                out.push(Segment::UrlMarker);
                proof {
                    lemma_seg_models_push(out1, Segment::UrlMarker);
                    assert(segs_from(s, i0) == line + seq![SegModel::Url] + segs_from(
                        s,
                        nonspace_end(s, b as int),
                    ));
                    assert(seg_models(out@) + segs_from(s, nonspace_end(s, b as int))
                        =~= seg_models(out0) + segs_from(s, i0));
                }
                i = nonspace_end_x(text, b);
            }
        }
    }
    proof {
        lemma_segs_from_at_end(s);
        assert(seg_models(out@) =~= seg_models(out@) + segs_from(s, n as int));
    }
    out
}

} // verus!
