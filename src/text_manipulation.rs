//! Width-bounded line wrapping over cached glyph advances.
//!
//! Widths are integers in millipoints (1/1000 pt). The advance of each
//! character is measured once by the font rasteriser and stored in the
//! wrapper's cache; wrapping and width queries read only that cache.
use std::collections::HashMap;
use vstd::prelude::*;

verus! {

broadcast use vstd::std_specs::hash::group_hash_axioms;

/// When less than this much room (in millipoints) would remain on a line,
/// a whitespace character starts a new line instead.
pub const WRAP_SLACK: u64 = 30000;

/// The Unicode `White_Space` property, which `char::is_whitespace` follows.
pub open spec fn is_ws(c: char) -> bool {
    let u = c as u32;
    (0x9 <= u && u <= 0xd) || u == 0x20 || u == 0x85 || u == 0xa0 || u == 0x1680 || (0x2000 <= u
        && u <= 0x200a) || u == 0x2028 || u == 0x2029 || u == 0x202f || u == 0x205f || u == 0x3000
}

/// Whether `c` is whitespace.
pub fn is_whitespace(c: char) -> (r: bool)
    ensures
        r == is_ws(c),
{
    let u = c as u32;
    (0x9 <= u && u <= 0xd) || u == 0x20 || u == 0x85 || u == 0xa0 || u == 0x1680 || (0x2000 <= u
        && u <= 0x200a) || u == 0x2028 || u == 0x2029 || u == 0x202f || u == 0x205f || u == 0x3000
}

/// `s` without its leading whitespace.
pub open spec fn trim_start(s: Seq<char>) -> Seq<char>
    decreases s.len(),
{
    if s.len() > 0 && is_ws(s[0]) {
        trim_start(s.drop_first())
    } else {
        s
    }
}

/// `s` without its trailing whitespace.
pub open spec fn trim_end(s: Seq<char>) -> Seq<char>
    decreases s.len(),
{
    if s.len() > 0 && is_ws(s.last()) {
        trim_end(s.drop_last())
    } else {
        s
    }
}

/// `s` without leading and trailing whitespace.
pub open spec fn trim(s: Seq<char>) -> Seq<char> {
    trim_end(trim_start(s))
}

/// The non-whitespace characters of `s`, in order.
pub open spec fn strip_ws(s: Seq<char>) -> Seq<char>
    decreases s.len(),
{
    if s.len() == 0 {
        s
    } else if is_ws(s.last()) {
        strip_ws(s.drop_last())
    } else {
        strip_ws(s.drop_last()).push(s.last())
    }
}

/// Sum of a sequence of widths.
pub open spec fn total(w: Seq<int>) -> int
    decreases w.len(),
{
    if w.len() == 0 {
        0
    } else {
        total(w.drop_last()) + w.last()
    }
}

/// The width bound of line `k`: the first line may have a bound of its own.
pub open spec fn line_limit(first_max: int, rest_max: int, k: int) -> int {
    if k == 0 {
        first_max
    } else {
        rest_max
    }
}

/// Whether a character of advance `adv` goes to a new line, on a line that
/// is already `width` wide and bounded by `limit`.
pub open spec fn breaks_before(width: int, adv: int, limit: int, c: char) -> bool {
    width + adv >= limit || (limit - (width + adv) < WRAP_SLACK && is_ws(c))
}

/// Progress of the wrapper: the completed lines (text, width), the raw
/// characters of the current line, and the current line's width.
pub struct WrapState {
    pub lines: Seq<(Seq<char>, int)>,
    pub raw: Seq<char>,
    pub width: int,
}

/// One character of advance `adv` fed to the wrapper.
pub open spec fn wrap_step(st: WrapState, c: char, adv: int, first_max: int, rest_max: int) -> WrapState {
    if breaks_before(st.width, adv, line_limit(first_max, rest_max, st.lines.len() as int), c) {
        WrapState { lines: st.lines.push((trim_start(st.raw), st.width)), raw: seq![c], width: adv }
    } else {
        WrapState { lines: st.lines, raw: st.raw.push(c), width: st.width + adv }
    }
}

/// The wrapper's state after the first `n` characters.
pub open spec fn wrap_state(
    chars: Seq<char>,
    advs: Seq<int>,
    n: nat,
    first_max: int,
    rest_max: int,
) -> WrapState
    decreases n,
{
    if n == 0 {
        WrapState { lines: seq![], raw: seq![], width: 0 }
    } else {
        wrap_step(
            wrap_state(chars, advs, (n - 1) as nat, first_max, rest_max),
            chars[n - 1],
            advs[n - 1],
            first_max,
            rest_max,
        )
    }
}

/// The lines that wrapping `chars` (with advances `advs`) produces: each
/// completed line without its leading whitespace, then the last fragment
/// trimmed on both sides. Never empty.
pub open spec fn wrapped_lines(chars: Seq<char>, advs: Seq<int>, first_max: int, rest_max: int) -> Seq<
    (Seq<char>, int),
> {
    let st = wrap_state(chars, advs, chars.len(), first_max, rest_max);
    st.lines.push((trim(st.raw), st.width))
}

/// The texts of `lines`, joined.
pub open spec fn joined(lines: Seq<(Seq<char>, int)>) -> Seq<char>
    decreases lines.len(),
{
    if lines.len() == 0 {
        seq![]
    } else {
        joined(lines.drop_last()) + lines.last().0
    }
}

/// Whether `m` holds an advance for every character of `s`.
pub open spec fn covered_by(m: Map<u32, u32>, s: Seq<char>) -> bool {
    forall|i: int| 0 <= i < s.len() ==> m.dom().contains(#[trigger] s[i] as u32)
}

/// The advances in `m` of the characters of `s`, in order.
pub open spec fn advances_in(m: Map<u32, u32>, s: Seq<char>) -> Seq<int> {
    Seq::new(s.len(), |i: int| m[s[i] as u32] as int)
}

/// Lines as returned by the executable wrapper, viewed as text and width.
pub open spec fn lines_view(v: Seq<(String, u64)>) -> Seq<(Seq<char>, int)> {
    v.map_values(|p: (String, u64)| (p.0@, p.1 as int))
}

/// Relies on `str::chars`: the characters of `s`, in order.
#[verifier::external_body]
pub(crate) fn chars_of(s: &str) -> (r: Vec<char>)
    ensures
        r@ == s@,
{
    s.chars().collect()
}

/// Relies on `String: FromIterator<char>`: the string of the characters of `v`.
#[verifier::external_body]
pub(crate) fn string_from_chars(v: &Vec<char>) -> (r: String)
    ensures
        r@ == v@,
{
    v.iter().collect()
}

proof fn lemma_trim_start_push(s: Seq<char>, c: char)
    ensures
        trim_start(s.push(c)) == (if trim_start(s).len() == 0 && is_ws(c) {
            seq![]
        } else {
            trim_start(s).push(c)
        }),
    decreases s.len(),
{
    if s.len() == 0 {
        assert(s.push(c).drop_first() =~= Seq::<char>::empty());
        assert(trim_start(Seq::<char>::empty()) == Seq::<char>::empty());
    } else if is_ws(s[0]) {
        assert(s.push(c).drop_first() =~= s.drop_first().push(c));
        lemma_trim_start_push(s.drop_first(), c);
    } else {
        assert(s.push(c)[0] == s[0]);
    }
}

proof fn lemma_trim_start_len(s: Seq<char>)
    ensures
        trim_start(s).len() <= s.len(),
    decreases s.len(),
{
    if s.len() > 0 && is_ws(s[0]) {
        lemma_trim_start_len(s.drop_first());
    }
}

proof fn lemma_trim_end_len(s: Seq<char>)
    ensures
        trim_end(s).len() <= s.len(),
    decreases s.len(),
{
    if s.len() > 0 && is_ws(s.last()) {
        lemma_trim_end_len(s.drop_last());
    }
}

proof fn lemma_strip_append(a: Seq<char>, b: Seq<char>)
    ensures
        strip_ws(a + b) == strip_ws(a) + strip_ws(b),
    decreases b.len(),
{
    if b.len() == 0 {
        assert(a + b =~= a);
        assert(strip_ws(a) + strip_ws(b) =~= strip_ws(a));
    } else {
        assert((a + b).drop_last() =~= a + b.drop_last());
        lemma_strip_append(a, b.drop_last());
        if !is_ws(b.last()) {
            assert(strip_ws(a) + strip_ws(b.drop_last()).push(b.last()) =~= (strip_ws(a) + strip_ws(
                b.drop_last(),
            )).push(b.last()));
        }
    }
}

proof fn lemma_strip_trim_start(s: Seq<char>)
    ensures
        strip_ws(trim_start(s)) == strip_ws(s),
    decreases s.len(),
{
    if s.len() > 0 && is_ws(s[0]) {
        lemma_strip_trim_start(s.drop_first());
        assert(s =~= seq![s[0]] + s.drop_first());
        lemma_strip_append(seq![s[0]], s.drop_first());
        assert(seq![s[0]].drop_last() =~= Seq::<char>::empty());
        assert(seq![s[0]].last() == s[0]);
        assert(strip_ws(Seq::<char>::empty()) == Seq::<char>::empty());
        assert(strip_ws(seq![s[0]]) =~= Seq::<char>::empty());
        assert(Seq::<char>::empty() + strip_ws(s.drop_first()) =~= strip_ws(s.drop_first()));
    }
}

proof fn lemma_strip_trim_end(s: Seq<char>)
    ensures
        strip_ws(trim_end(s)) == strip_ws(s),
    decreases s.len(),
{
    if s.len() > 0 && is_ws(s.last()) {
        lemma_strip_trim_end(s.drop_last());
    }
}

proof fn lemma_wrap_state_keeps_text(
    chars: Seq<char>,
    advs: Seq<int>,
    n: nat,
    first_max: int,
    rest_max: int,
)
    requires
        n <= chars.len(),
    ensures
        ({
            let st = wrap_state(chars, advs, n, first_max, rest_max);
            strip_ws(joined(st.lines) + st.raw) == strip_ws(chars.take(n as int))
        }),
    decreases n,
{
    if n == 0 {
        assert(chars.take(0) =~= Seq::<char>::empty());
        assert(Seq::<char>::empty() + Seq::<char>::empty() =~= Seq::<char>::empty());
    } else {
        let m = (n - 1) as nat;
        lemma_wrap_state_keeps_text(chars, advs, m, first_max, rest_max);
        let prev = wrap_state(chars, advs, m, first_max, rest_max);
        let c = chars[m as int];
        assert(chars.take(n as int) =~= chars.take(m as int).push(c));
        let st = wrap_state(chars, advs, n, first_max, rest_max);
        if breaks_before(prev.width, advs[m as int], line_limit(first_max, rest_max, prev.lines.len() as int), c) {
            let t = trim_start(prev.raw);
            assert(st.lines.drop_last() =~= prev.lines);
            assert(joined(st.lines) == joined(prev.lines) + t);
            lemma_strip_append(joined(prev.lines) + t, seq![c]);
            assert(joined(st.lines) + st.raw == joined(prev.lines) + t + seq![c]);
            lemma_strip_append(joined(prev.lines), t);
            lemma_strip_trim_start(prev.raw);
            lemma_strip_append(joined(prev.lines), prev.raw);
            lemma_strip_append(joined(prev.lines) + prev.raw, seq![c]);
            lemma_strip_append(chars.take(m as int), seq![c]);
            assert(chars.take(m as int) + seq![c] =~= chars.take(n as int));
        } else {
            assert(joined(st.lines) + st.raw =~= (joined(prev.lines) + prev.raw).push(c));
            assert((joined(prev.lines) + prev.raw).push(c).drop_last() =~= joined(prev.lines)
                + prev.raw);
            assert(chars.take(n as int).drop_last() =~= chars.take(m as int));
        }
    }
}

/// Wrapping keeps the text: joining the wrapped lines gives back the input,
/// up to whitespace.
pub proof fn lemma_wrap_keeps_text(chars: Seq<char>, advs: Seq<int>, first_max: int, rest_max: int)
    ensures
        strip_ws(joined(wrapped_lines(chars, advs, first_max, rest_max))) == strip_ws(chars),
{
    let st = wrap_state(chars, advs, chars.len(), first_max, rest_max);
    lemma_wrap_state_keeps_text(chars, advs, chars.len(), first_max, rest_max);
    assert(chars.take(chars.len() as int) =~= chars);
    let lines = wrapped_lines(chars, advs, first_max, rest_max);
    assert(lines.drop_last() =~= st.lines);
    lemma_strip_append(joined(st.lines), trim(st.raw));
    lemma_strip_append(joined(st.lines), st.raw);
    lemma_strip_trim_end(trim_start(st.raw));
    lemma_strip_trim_start(st.raw);
}

/// Every wrapped line fits its width bound, unless it holds a single glyph
/// that is wider than the bound by itself.
pub proof fn lemma_wrap_within_limits(chars: Seq<char>, advs: Seq<int>, first_max: int, rest_max: int)
    requires
        advs.len() == chars.len(),
        forall|i: int| 0 <= i < advs.len() ==> advs[i] >= 0,
    ensures
        ({
            let lines = wrapped_lines(chars, advs, first_max, rest_max);
            forall|k: int|
                0 <= k < lines.len() ==> (#[trigger] lines[k]).1 >= 0 && (lines[k].1 < line_limit(
                    first_max,
                    rest_max,
                    k,
                ) || lines[k].0.len() <= 1)
        }),
{
    lemma_wrap_state_within_limits(chars, advs, chars.len(), first_max, rest_max);
    let st = wrap_state(chars, advs, chars.len(), first_max, rest_max);
    lemma_trim_start_len(st.raw);
    lemma_trim_end_len(trim_start(st.raw));
    let lines = wrapped_lines(chars, advs, first_max, rest_max);
    assert forall|k: int| 0 <= k < lines.len() implies lines[k].1 >= 0 && (lines[k].1 < line_limit(
        first_max,
        rest_max,
        k,
    ) || lines[k].0.len() <= 1) by {
        if k < st.lines.len() {
            assert(lines[k] == st.lines[k]);
        } else {
            assert(lines[k] == (trim(st.raw), st.width));
        }
    }
}

proof fn lemma_wrap_state_within_limits(
    chars: Seq<char>,
    advs: Seq<int>,
    n: nat,
    first_max: int,
    rest_max: int,
)
    requires
        n <= chars.len(),
        advs.len() == chars.len(),
        forall|i: int| 0 <= i < advs.len() ==> advs[i] >= 0,
    ensures
        ({
            let st = wrap_state(chars, advs, n, first_max, rest_max);
            &&& st.width >= 0
            &&& (st.width < line_limit(first_max, rest_max, st.lines.len() as int) || st.raw.len()
                <= 1)
            &&& forall|k: int|
                0 <= k < st.lines.len() ==> (#[trigger] st.lines[k]).1 >= 0 && (st.lines[k].1 < line_limit(
                    first_max,
                    rest_max,
                    k,
                ) || st.lines[k].0.len() <= 1)
        }),
    decreases n,
{
    if n > 0 {
        let m = (n - 1) as nat;
        lemma_wrap_state_within_limits(chars, advs, m, first_max, rest_max);
        let prev = wrap_state(chars, advs, m, first_max, rest_max);
        lemma_trim_start_len(prev.raw);
        let st = wrap_state(chars, advs, n, first_max, rest_max);
        let c = chars[m as int];
        let adv = advs[m as int];
        if breaks_before(prev.width, adv, line_limit(first_max, rest_max, prev.lines.len() as int), c) {
            assert(st.lines == prev.lines.push((trim_start(prev.raw), prev.width)));
            assert forall|k: int| 0 <= k < st.lines.len() implies st.lines[k].1 >= 0 && (
            st.lines[k].1 < line_limit(first_max, rest_max, k) || st.lines[k].0.len() <= 1) by {
                if k < prev.lines.len() {
                    assert(st.lines[k] == prev.lines[k]);
                } else {
                    assert(st.lines[k] == (trim_start(prev.raw), prev.width));
                    assert(k == prev.lines.len());
                }
            }
            assert(st.raw.len() == 1);
        } else {
            assert(st.lines == prev.lines);
        }
    }
}

/// Wraps text into width-bounded lines. Glyph advances, in millipoints, are
/// measured once per character by the font rasteriser and kept in a cache
/// keyed by character code.
pub struct TextWrapper {
    rasterize_cache: HashMap<u32, u32>,
    font_size: u32,
}

impl TextWrapper {
    /// The cached advances, by character code.
    pub closed spec fn advances(&self) -> Map<u32, u32> {
        self.rasterize_cache@
    }

    /// The font size, in millipoints.
    pub closed spec fn spec_font_size(&self) -> u32 {
        self.font_size
    }

    /// Whether every character of `s` has a cached advance.
    pub open spec fn covers(&self, s: Seq<char>) -> bool {
        covered_by(self.advances(), s)
    }

    /// The cached advance of `c`.
    pub open spec fn advance_of(&self, c: char) -> int {
        self.advances()[c as u32] as int
    }

    /// The advances of the characters of `s`, in order.
    pub open spec fn advances_of(&self, s: Seq<char>) -> Seq<int> {
        advances_in(self.advances(), s)
    }

    /// A wrapper for a font of size `font_size` (millipoints), with an empty cache.
    pub fn new(font_size: u32) -> (r: Self)
        ensures
            r.advances() == Map::<u32, u32>::empty(),
            r.spec_font_size() == font_size,
    {
        TextWrapper { rasterize_cache: HashMap::new(), font_size }
    }

    /// The font size, in millipoints.
    pub fn font_size(&self) -> (r: u32)
        ensures
            r == self.spec_font_size(),
    {
        self.font_size
    }

    /// Records the measured advance of `ch`.
    pub fn set_advance(&mut self, ch: char, width: u32)
        ensures
            final(self).advances() == old(self).advances().insert(ch as u32, width),
            final(self).spec_font_size() == old(self).spec_font_size(),
    {
        self.rasterize_cache.insert(ch as u32, width);
    }

    /// The characters of `txt` whose advance is not cached yet.
    pub fn missing_chars(&self, txt: &str) -> (r: Vec<char>)
        ensures
            forall|c: char|
                r@.contains(c) <==> (txt@.contains(c) && !self.advances().dom().contains(c as u32)),
    {
        let chars = chars_of(txt);
        let mut out: Vec<char> = Vec::new();
        let mut i: usize = 0;
        while i < chars.len()
            invariant
                i <= chars.len(),
                chars@ == txt@,
                forall|c: char|
                    out@.contains(c) <==> (chars@.take(i as int).contains(c)
                        && !self.advances().dom().contains(c as u32)),
            decreases chars.len() - i,
        {
            let c = chars[i];
            let ghost before = out@;
            if !self.rasterize_cache.contains_key(&(c as u32)) {
                out.push(c);
            }
            assert(chars@.take(i + 1) =~= chars@.take(i as int).push(c));
            assert forall|d: char|
                out@.contains(d) <==> (chars@.take(i + 1).contains(d)
                    && !self.advances().dom().contains(d as u32)) by {
                if out@.contains(d) && !before.contains(d) {
                    assert(out@ == before.push(c));
                    let j = choose|j: int| 0 <= j < out@.len() && out@[j] == d;
                    assert(d == c);
                    assert(chars@.take(i + 1)[i as int] == d);
                }
                if before.contains(d) {
                    let j = choose|j: int| 0 <= j < before.len() && before[j] == d;
                    assert(out@[j] == d);
                }
                if chars@.take(i + 1).contains(d) {
                    let t = chars@.take(i + 1);
                    let j = choose|j: int| 0 <= j < t.len() && t[j] == d;
                    if j < i {
                        assert(chars@.take(i as int)[j] == d);
                    } else if !self.advances().dom().contains(d as u32) {
                        assert(out@[out@.len() - 1] == d);
                    }
                }
            }
            i += 1;
        }
        assert(chars@.take(i as int) =~= chars@);
        out
    }

    fn advance(&self, c: char) -> (r: u32)
        requires
            self.advances().dom().contains(c as u32),
        ensures
            r as int == self.advance_of(c),
    {
        match self.rasterize_cache.get(&(c as u32)) {
            Some(w) => *w,
            None => 0,
        }
    }

    /// The width of `txt`: the sum of its characters' advances.
    pub fn get_width(&self, txt: &str) -> (r: u64)
        requires
            self.covers(txt@),
            txt@.len() <= u32::MAX,
        ensures
            r == total(self.advances_of(txt@)),
            r <= txt@.len() * 0xffff_ffff,
    {
        let chars = chars_of(txt);
        let ghost advs = self.advances_of(txt@);
        let mut sum: u64 = 0;
        let mut i: usize = 0;
        while i < chars.len()
            invariant
                i <= chars.len(),
                chars@ == txt@,
                chars.len() <= u32::MAX,
                advs == self.advances_of(txt@),
                self.covers(txt@),
                sum == total(advs.take(i as int)),
                sum <= i * 0xffff_ffff,
            decreases chars.len() - i,
        {
            let c = chars[i];
            let w = self.advance(c);
            assert(advs.take(i + 1).drop_last() =~= advs.take(i as int));
            proof {
                assert(sum + w <= (i + 1) * 0xffff_ffff) by (nonlinear_arith)
                    requires
                        sum <= i * 0xffff_ffff,
                        w <= 0xffff_ffff,
                ;
                assert((i + 1) * 0xffff_ffff <= 0xffff_ffff * 0xffff_ffff) by (nonlinear_arith)
                    requires
                        i + 1 <= 0xffff_ffff,
                ;
            }
            sum = sum + w as u64;
            i += 1;
        }
        assert(advs.take(i as int) =~= advs);
        sum
    }

    /// Splits `txt` into lines no wider than `first_max` (the first line) and
    /// `rest_max` (the others), in millipoints. See [`wrapped_lines`].
    pub fn split_into_lines(&self, txt: &str, first_max: u64, rest_max: u64) -> (r: Vec<(String, u64)>)
        requires
            self.covers(txt@),
        ensures
            lines_view(r@) == wrapped_lines(
                txt@,
                self.advances_of(txt@),
                first_max as int,
                rest_max as int,
            ),
    {
        let chars = chars_of(txt);
        let ghost advs = self.advances_of(txt@);
        let mut lines: Vec<(String, u64)> = Vec::new();
        let mut buf: Vec<char> = Vec::new();
        let ghost mut raw: Seq<char> = seq![];
        let mut width: u64 = 0;
        let mut i: usize = 0;
        while i < chars.len()
            invariant
                i <= chars.len(),
                chars@ == txt@,
                advs == self.advances_of(txt@),
                self.covers(txt@),
                wrap_state(chars@, advs, i as nat, first_max as int, rest_max as int).lines
                    == lines_view(lines@),
                wrap_state(chars@, advs, i as nat, first_max as int, rest_max as int).raw == raw,
                wrap_state(chars@, advs, i as nat, first_max as int, rest_max as int).width
                    == width as int,
                buf@ == trim_start(raw),
                width < line_limit(first_max as int, rest_max as int, lines.len() as int) || width
                    <= u32::MAX,
            decreases chars.len() - i,
        {
            let c = chars[i];
            let adv = self.advance(c) as u64;
            let limit = if lines.len() == 0 {
                first_max
            } else {
                rest_max
            };
            let brk = if width >= limit {
                true
            } else {
                let room = limit - width;
                if adv >= room {
                    true
                } else {
                    room - adv < WRAP_SLACK && is_whitespace(c)
                }
            };
            proof {
                lemma_trim_start_push(raw, c);
            }
            if brk {
                let text = string_from_chars(&buf);
                let ghost before = lines@;
                lines.push((text, width));
                assert(lines_view(lines@) =~= lines_view(before).push((buf@, width as int)));
                buf = Vec::new();
                if !is_whitespace(c) {
                    buf.push(c);
                }
                proof {
                    assert(trim_start(Seq::<char>::empty()) == Seq::<char>::empty());
                    lemma_trim_start_push(Seq::<char>::empty(), c);
                    assert(Seq::<char>::empty().push(c) =~= seq![c]);
                    assert(Seq::<char>::empty().push(c) =~= buf@ || is_ws(c));
                    raw = seq![c];
                }
                width = adv;
            } else {
                if !(buf.len() == 0 && is_whitespace(c)) {
                    buf.push(c);
                }
                proof {
                    raw = raw.push(c);
                }
                width = width + adv;
            }
            i += 1;
        }
        while buf.len() > 0 && is_whitespace(buf[buf.len() - 1])
            invariant
                trim_end(buf@) == trim(raw),
            decreases buf.len(),
        {
            let ghost before = buf@;
            buf.pop();
            assert(buf@ =~= before.drop_last());
        }
        let text = string_from_chars(&buf);
        let ghost before = lines@;
        lines.push((text, width));
        assert(lines_view(lines@) =~= lines_view(before).push((trim(raw), width as int)));
        lines
    }
}

} // verus!
