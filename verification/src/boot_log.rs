//! Analysis of a boot log: text decoding, markers, error counters, the
//! tick sequence, reset signals and whether a run passes in a mode.
use vstd::prelude::*;
use vstd::utf8::{valid_utf8, decode_utf8};
use crate::text::{string_from_bytes, utf8_lossy, text};
use vstd::string::{StringExecFns, StrSliceExecFns};

verus! {

/// `n` occurs in `t` at position `i`.
pub open spec fn occurs_at(t: Seq<char>, n: Seq<char>, i: int) -> bool {
    0 <= i && i + n.len() <= t.len() && t.subrange(i, i + n.len()) == n
}

/// Non-overlapping occurrences of a non-empty `n` in `t` from `i`, found
/// left to right.
pub open spec fn count_from(t: Seq<char>, n: Seq<char>, i: int) -> nat
    decreases t.len() - i,
{
    if n.len() == 0 || i < 0 || i + n.len() > t.len() {
        0
    } else if occurs_at(t, n, i) {
        1 + count_from(t, n, i + n.len())
    } else {
        count_from(t, n, i + 1)
    }
}

pub open spec fn spec_count(t: Seq<char>, n: Seq<char>) -> nat {
    count_from(t, n, 0)
}

/// `t` contains `n`.
pub open spec fn spec_contains(t: Seq<char>, n: Seq<char>) -> bool {
    exists|i: int| occurs_at(t, n, i)
}

proof fn lemma_count_bound(t: Seq<char>, n: Seq<char>, i: int)
    requires
        0 <= i <= t.len(),
        n.len() > 0,
    ensures
        count_from(t, n, i) * n.len() <= t.len() - i,
    decreases t.len() - i,
{
    if i + n.len() <= t.len() {
        if occurs_at(t, n, i) {
            lemma_count_bound(t, n, i + n.len());
            let a = count_from(t, n, i);
            let b = count_from(t, n, i + n.len());
            let l = n.len() as int;
            assert(a == 1 + b);
            assert(b * l <= t.len() - i - l);
            assert(a * l == b * l + l) by (nonlinear_arith)
                requires a == 1 + b;
            assert(count_from(t, n, i) * n.len() <= t.len() - i);
        } else {
            lemma_count_bound(t, n, i + 1);
            assert(count_from(t, n, i) == count_from(t, n, i + 1));
            assert(count_from(t, n, i) * n.len() <= t.len() - i);
        }
    } else {
        assert(count_from(t, n, i) == 0);
        assert(count_from(t, n, i) * n.len() <= t.len() - i);
    }
}

/// Whether `n` occurs at `i`.
fn occurs(t: &[char], n: &[char], i: usize) -> (r: bool)
    ensures
        r == occurs_at(t@, n@, i as int),
{
    if i > t.len() || t.len() - i < n.len() {
        return false;
    }
    let tl = t.len();
    let mut k: usize = 0;
    while k < n.len()
        invariant
            tl == t@.len(),
            i + n@.len() <= t@.len(),
            k <= n@.len(),
            forall|j: int| 0 <= j < k ==> t@[i + j] == n@[j],
        decreases n.len() - k,
    {
        if t[i + k] != n[k] {
            assert(t@.subrange(i as int, i + n@.len())[k as int] != n@[k as int]);
            return false;
        }
        k += 1;
    }
    assert(t@.subrange(i as int, i + n@.len()) =~= n@);
    true
}

/// Counts the non-overlapping occurrences of a non-empty `n` in `t`.
pub fn count_contains(t: &[char], n: &[char]) -> (c: u64)
    requires
        n@.len() > 0,
    ensures
        c == spec_count(t@, n@),
        c * n@.len() <= t@.len(),
{
    let mut i: usize = 0;
    let mut c: u64 = 0;
    proof { lemma_count_bound(t@, n@, 0); }
    while i < t.len() && t.len() - i >= n.len()
        invariant
            n@.len() > 0,
            i <= t@.len(),
            c + count_from(t@, n@, i as int) == spec_count(t@, n@),
            count_from(t@, n@, 0) * n@.len() <= t@.len(),
        decreases t.len() - i,
    {
        proof { lemma_count_bound(t@, n@, i as int); }
        if occurs(t, n, i) {
            assert(c + 1 <= spec_count(t@, n@)) by (nonlinear_arith)
                requires
                    c + count_from(t@, n@, i as int) == spec_count(t@, n@),
                    count_from(t@, n@, i as int) >= 1;
            assert(spec_count(t@, n@) <= t@.len()) by (nonlinear_arith)
                requires spec_count(t@, n@) * n@.len() <= t@.len(), n@.len() >= 1;
            c = c + 1;
            i = i + n.len();
        } else {
            i = i + 1;
        }
    }
    proof { lemma_count_bound(t@, n@, 0); }
    c
}

/// Whether `t` contains `n`.
pub fn contains(t: &[char], n: &[char]) -> (r: bool)
    ensures
        r == spec_contains(t@, n@),
{
    if t.len() < n.len() {
        assert(!spec_contains(t@, n@));
        return false;
    }
    if n.len() == 0 {
        assert(occurs_at(t@, n@, 0)) by {
            assert(t@.subrange(0, 0) =~= n@);
        }
        return true;
    }
    let mut i: usize = 0;
    while i < t.len() - n.len() + 1
        invariant
            n@.len() <= t@.len(),
            n@.len() >= 1,
            i <= t@.len() - n@.len() + 1,
            forall|j: int| 0 <= j < i ==> !occurs_at(t@, n@, j),
        decreases t.len() - n.len() + 1 - i,
    {
        if occurs(t, n, i) {
            return true;
        }
        i += 1;
    }
    assert forall|j: int| !occurs_at(t@, n@, j) by {
        if 0 <= j && j + n@.len() <= t@.len() {
            assert(j < i);
        }
    }
    false
}

/// Index of the first occurrence of `n` in `t`, if any.
pub open spec fn spec_find(t: Seq<char>, n: Seq<char>) -> Option<int> {
    if spec_contains(t, n) {
        Some(choose|i: int| occurs_at(t, n, i) && forall|j: int| 0 <= j < i ==> !occurs_at(t, n, j))
    } else {
        None
    }
}

pub fn find(t: &[char], n: &[char]) -> (r: Option<usize>)
    ensures
        r is None <==> !spec_contains(t@, n@),
        r matches Some(i) ==> occurs_at(t@, n@, i as int) && forall|j: int| 0 <= j < i ==> !occurs_at(t@, n@, j),
        r matches Some(i) ==> spec_find(t@, n@) == Some(i as int),
{
    if t.len() < n.len() {
        assert(!spec_contains(t@, n@));
        return None;
    }
    if n.len() == 0 {
        assert(occurs_at(t@, n@, 0)) by {
            assert(t@.subrange(0, 0) =~= n@);
        }
        return Some(0);
    }
    let mut i: usize = 0;
    while i < t.len() - n.len() + 1
        invariant
            n@.len() <= t@.len(),
            n@.len() >= 1,
            i <= t@.len() - n@.len() + 1,
            forall|j: int| 0 <= j < i ==> !occurs_at(t@, n@, j),
        decreases t.len() - n.len() + 1 - i,
    {
        if occurs(t, n, i) {
            proof {
                let w = choose|k: int| occurs_at(t@, n@, k) && forall|j: int| 0 <= j < k ==> !occurs_at(t@, n@, j);
                assert(occurs_at(t@, n@, i as int) && forall|j: int| 0 <= j < i ==> !occurs_at(t@, n@, j));
                if w < i {
                } else if w > i {
                }
            }
            return Some(i);
        }
        i += 1;
    }
    assert forall|j: int| !occurs_at(t@, n@, j) by {
        if 0 <= j && j + n@.len() <= t@.len() {
            assert(j < i);
        }
    }
    None
}


/// The characters of a string.
pub fn chars_of(s: &str) -> (v: Vec<char>)
    ensures
        v@ == s@,
{
    let mut v: Vec<char> = Vec::new();
    for c in it: s.chars()
        invariant
            v@ == it.seq().take(it.index() as int),
    {
        v.push(c);
    }
    v
}


/// The end of the line that starts at `i`: the first newline from `i` on, or
/// the end of the text.
pub open spec fn line_end(t: Seq<char>, i: int) -> int
    decreases t.len() - i,
{
    if i < 0 || i >= t.len() {
        t.len() as int
    } else if t[i] == '\n' {
        i
    } else {
        line_end(t, i + 1)
    }
}

/// The end of the line starting at `i` is the first newline at or after
/// `i`, or the end of the text.
pub proof fn lemma_line_end(t: Seq<char>, i: int)
    requires
        0 <= i <= t.len(),
    ensures
        i <= line_end(t, i) <= t.len(),
        line_end(t, i) < t.len() ==> t[line_end(t, i)] == '\n',
        forall|k: int| i <= k < line_end(t, i) ==> t[k] != '\n',
    decreases t.len() - i,
{
    if i < t.len() && t[i] != '\n' {
        lemma_line_end(t, i + 1);
    }
}

/// The end of the line's text: a carriage return before its newline is not
/// part of it.
pub open spec fn line_text_end(t: Seq<char>, i: int) -> int {
    let e = line_end(t, i);
    if e < t.len() && e > i && t[e - 1] == '\r' { e - 1 } else { e }
}

/// The lines of `t` from `i` on, as `str::lines` gives them: split at
/// newlines, with a carriage return before a newline dropped; the last line
/// needs no newline.
pub open spec fn lines_from(t: Seq<char>, i: int) -> Seq<Seq<char>>
    decreases t.len() - i,
{
    if i < 0 || i >= t.len() {
        Seq::empty()
    } else {
        let e = line_end(t, i);
        let rest = if e + 1 < t.len() {
            proof {
                lemma_line_end(t, i);
            }
            lines_from(t, e + 1)
        } else {
            Seq::empty()
        };
        seq![t.subrange(i, line_text_end(t, i))] + rest
    }
}

pub open spec fn spec_lines(t: Seq<char>) -> Seq<Seq<char>> {
    lines_from(t, 0)
}

/// Finds the line that starts at `i`: where its text ends and where it
/// ends.
fn line_at(t: &[char], i: usize) -> (r: (usize, usize))
    requires
        i < t@.len(),
    ensures
        r.0 == line_text_end(t@, i as int),
        r.1 == line_end(t@, i as int),
        i <= r.0 <= r.1 <= t@.len(),
{
    proof { lemma_line_end(t@, i as int); }
    let mut e = i;
    while e < t.len() && t[e] != '\n'
        invariant
            i <= e <= t@.len(),
            line_end(t@, e as int) == line_end(t@, i as int),
        decreases t.len() - e,
    {
        e += 1;
    }
    let hi = if e < t.len() && e > i && t[e - 1] == '\r' { e - 1 } else { e };
    (hi, e)
}

pub open spec fn is_digit(c: char) -> bool {
    '0' <= c && c <= '9'
}

/// Where the run of ASCII digits from `k` ends.
pub open spec fn digit_run(s: Seq<char>, k: int) -> int
    decreases s.len() - k,
{
    if k < 0 || k >= s.len() || !is_digit(s[k]) { k } else { digit_run(s, k + 1) }
}

/// The value of a string of decimal digits.
pub open spec fn dec_value(d: Seq<char>) -> nat
    decreases d.len(),
{
    if d.len() == 0 { 0 } else { dec_value(d.drop_last()) * 10 + ((d.last() as u32) - 48) as nat }
}

pub open spec fn tick_marker() -> Seq<char> {
    "R10 tick="@
}

/// The tick a line reports: the digits right after its first `R10 tick=`,
/// when there are some and they fit in 64 bits.
pub open spec fn line_tick(line: Seq<char>) -> Option<u64> {
    match spec_find(line, tick_marker()) {
        None => None,
        Some(p) => {
            let rest = line.subrange(p + tick_marker().len(), line.len() as int);
            let n = digit_run(rest, 0);
            if n == 0 {
                None
            } else {
                let v = dec_value(rest.subrange(0, n));
                if v <= u64::MAX { Some(v as u64) } else { None }
            }
        },
    }
}

/// The ticks the lines report, in order.
pub open spec fn ticks_of(lines: Seq<Seq<char>>) -> Seq<u64>
    decreases lines.len(),
{
    if lines.len() == 0 {
        Seq::empty()
    } else {
        let prev = ticks_of(lines.drop_last());
        match line_tick(lines.last()) {
            Some(v) => prev.push(v),
            None => prev,
        }
    }
}

/// The value of the digits that start `rest`, if there are some and they fit
/// in 64 bits.
fn leading_number(rest: &[char]) -> (r: Option<u64>)
    ensures
        ({
            let n = digit_run(rest@, 0);
            let v = dec_value(rest@.subrange(0, n));
            r == (if n == 0 || v > u64::MAX { None } else { Some(v as u64) })
        }),
{
    let mut k: usize = 0;
    let mut v: u64 = 0;
    let mut fits = true;
    assert(rest@.subrange(0, 0) =~= Seq::<char>::empty());
    while k < rest.len() && '0' <= rest[k] && rest[k] <= '9'
        invariant
            k <= rest@.len(),
            digit_run(rest@, k as int) == digit_run(rest@, 0),
            fits ==> v as nat == dec_value(rest@.subrange(0, k as int)),
            !fits ==> dec_value(rest@.subrange(0, k as int)) > u64::MAX,
        decreases rest.len() - k,
    {
        let d = rest[k] as u32 - 48;
        let ghost prev = rest@.subrange(0, k as int);
        assert(rest@.subrange(0, k + 1).drop_last() =~= prev);
        if fits {
            match v.checked_mul(10) {
                Some(m) => match m.checked_add(d as u64) {
                    Some(x) => { v = x; },
                    None => { fits = false; },
                },
                None => { fits = false; },
            }
        } else {
            assert(dec_value(rest@.subrange(0, k + 1)) >= dec_value(prev) * 10) by (nonlinear_arith)
                requires dec_value(rest@.subrange(0, k + 1)) == dec_value(prev) * 10 + d as nat;
            assert(dec_value(prev) * 10 > u64::MAX) by (nonlinear_arith)
                requires dec_value(prev) > u64::MAX;
        }
        k += 1;
    }
    if k == 0 || !fits {
        None
    } else {
        Some(v)
    }
}

/// The ticks reported by the lines of the text.
pub fn extract_ticks(t: &[char]) -> (ticks: Vec<u64>)
    ensures
        ticks@ == ticks_of(spec_lines(t@)),
{
    let marker = chars_of("R10 tick=");
    let mut ticks: Vec<u64> = Vec::new();
    let mut i: usize = 0;
    let ghost mut done: Seq<Seq<char>> = Seq::empty();
    assert(spec_lines(t@) =~= done + lines_from(t@, 0));
    while i < t.len()
        invariant
            marker@ == tick_marker(),
            i <= t@.len(),
            spec_lines(t@) == done + lines_from(t@, i as int),
            ticks@ == ticks_of(done),
        decreases t@.len() - i,
    {
        let (hi, e) = line_at(t, i);
        let line = vstd::slice::slice_subrange(t, i, hi);
        let ghost l = line@;
        let ll = line.len();
        match find(line, marker.as_slice()) {
            Some(p) => {
                let rest = vstd::slice::slice_subrange(line, p + marker.len(), ll);
                match leading_number(rest) {
                    Some(v) => ticks.push(v),
                    None => {},
                }
            },
            None => {},
        }
        proof {
            lemma_line_end(t@, i as int);
            assert((done.push(l)).drop_last() =~= done);
            assert(spec_lines(t@) =~= done.push(l) + lines_from(t@, e + 1));
            done = done.push(l);
        }
        if e >= t.len() {
            i = t.len();
        } else {
            i = e + 1;
        }
    }
    proof {
        assert(lines_from(t@, i as int) =~= Seq::<Seq<char>>::empty());
        assert(done =~= spec_lines(t@));
    }
    ticks
}


/// The ticks are present and strictly increasing.
pub open spec fn spec_monotonic(ticks: Seq<u64>) -> bool {
    ticks.len() > 0 && forall|i: int| 0 <= i < ticks.len() - 1 ==> #[trigger] ticks[i] < ticks[i + 1]
}

pub fn is_tick_monotonic(ticks: &[u64]) -> (r: bool)
    ensures
        r == spec_monotonic(ticks@),
{
    if ticks.len() == 0 {
        return false;
    }
    let mut prev = ticks[0];
    let mut i: usize = 1;
    while i < ticks.len()
        invariant
            1 <= i <= ticks@.len(),
            prev == ticks@[i - 1],
            forall|j: int| 0 <= j < i - 1 ==> #[trigger] ticks@[j] < ticks@[j + 1],
        decreases ticks.len() - i,
    {
        let cur = ticks[i];
        if cur <= prev {
            assert(!(ticks@[i - 1] < ticks@[i as int]));
            return false;
        }
        prev = cur;
        i += 1;
    }
    true
}

pub open spec fn runtime_marker() -> Seq<char> {
    "R00 runtime start"@
}

pub open spec fn bootloader_marker() -> Seq<char> {
    "Prometheus Bootloader"@
}

/// The boot banner shows up on a line after the runtime started, on a line
/// that does not itself report the start.
pub open spec fn spec_boot_repeat(lines: Seq<Seq<char>>) -> bool {
    exists|i: int, j: int| 0 <= i < j < lines.len()
        && #[trigger] spec_contains(lines[i], runtime_marker())
        && #[trigger] spec_contains(lines[j], bootloader_marker())
        && !spec_contains(lines[j], runtime_marker())
}

/// Whether the boot sequence appears again after the runtime started.
pub fn has_boot_repeat_after_runtime(t: &[char]) -> (r: bool)
    ensures
        r == spec_boot_repeat(spec_lines(t@)),
{
    let rt = chars_of("R00 runtime start");
    let pb = chars_of("Prometheus Bootloader");
    let mut saw = false;
    let mut i: usize = 0;
    let ghost mut done: Seq<Seq<char>> = Seq::empty();
    assert(spec_lines(t@) =~= done + lines_from(t@, 0));
    while i < t.len()
        invariant
            rt@ == runtime_marker(),
            pb@ == bootloader_marker(),
            i <= t@.len(),
            spec_lines(t@) == done + lines_from(t@, i as int),
            saw == exists|k: int| 0 <= k < done.len() && #[trigger] spec_contains(done[k], runtime_marker()),
            !spec_boot_repeat(done),
        decreases t@.len() - i,
    {
        let (hi, e) = line_at(t, i);
        let line = vstd::slice::slice_subrange(t, i, hi);
        let ghost l = line@;
        let ghost nd = done.push(l);
        proof {
            lemma_line_end(t@, i as int);
            assert(spec_lines(t@) =~= nd + lines_from(t@, e + 1));
        }
        if contains(line, rt.as_slice()) {
            saw = true;
            proof {
                assert(spec_contains(nd[done.len() as int], runtime_marker()));
                assert(!spec_boot_repeat(nd)) by {
                    if spec_boot_repeat(nd) {
                        let (a, b) = choose|a: int, b: int| 0 <= a < b < nd.len()
                            && #[trigger] spec_contains(nd[a], runtime_marker())
                            && #[trigger] spec_contains(nd[b], bootloader_marker())
                            && !spec_contains(nd[b], runtime_marker());
                        if b < done.len() {
                            assert(nd[a] == done[a] && nd[b] == done[b]);
                        }
                    }
                }
            }
        } else if saw && contains(line, pb.as_slice()) {
            proof {
                let k = choose|k: int| 0 <= k < done.len() && #[trigger] spec_contains(done[k], runtime_marker());
                assert(nd[k] == done[k]);
                assert(spec_contains(nd[k], runtime_marker()) && spec_contains(nd[done.len() as int], bootloader_marker()));
                assert(spec_boot_repeat(nd));
                assert(spec_lines(t@).subrange(0, nd.len() as int) =~= nd);
                assert(spec_boot_repeat(spec_lines(t@))) by {
                    let sl = spec_lines(t@);
                    assert(sl[k] == nd[k] && sl[done.len() as int] == nd[done.len() as int]);
                }
            }
            return true;
        } else {
            proof {
                assert(!spec_boot_repeat(nd)) by {
                    if spec_boot_repeat(nd) {
                        let (a, b) = choose|a: int, b: int| 0 <= a < b < nd.len()
                            && #[trigger] spec_contains(nd[a], runtime_marker())
                            && #[trigger] spec_contains(nd[b], bootloader_marker())
                            && !spec_contains(nd[b], runtime_marker());
                        if b < done.len() {
                            assert(nd[a] == done[a] && nd[b] == done[b]);
                        } else {
                            assert(nd[a] == done[a]);
                        }
                    }
                }
                assert(saw == exists|k: int| 0 <= k < nd.len() && #[trigger] spec_contains(nd[k], runtime_marker())) by {
                    if exists|k: int| 0 <= k < nd.len() && #[trigger] spec_contains(nd[k], runtime_marker()) {
                        let k = choose|k: int| 0 <= k < nd.len() && #[trigger] spec_contains(nd[k], runtime_marker());
                        assert(k < done.len());
                        assert(nd[k] == done[k]);
                    }
                    if saw {
                        let k = choose|k: int| 0 <= k < done.len() && #[trigger] spec_contains(done[k], runtime_marker());
                        assert(nd[k] == done[k]);
                    }
                }
            }
        }
        proof {
            if saw {
                assert(saw == exists|k: int| 0 <= k < nd.len() && #[trigger] spec_contains(nd[k], runtime_marker())) by {
                    if spec_contains(l, runtime_marker()) {
                        assert(nd[done.len() as int] == l);
                    } else {
                        let k = choose|k: int| 0 <= k < done.len() && #[trigger] spec_contains(done[k], runtime_marker());
                        assert(nd[k] == done[k]);
                    }
                }
            }
            done = nd;
        }
        if e >= t.len() {
            i = t.len();
        } else {
            i = e + 1;
        }
    }
    proof {
        assert(lines_from(t@, i as int) =~= Seq::<Seq<char>>::empty());
        assert(done =~= spec_lines(t@));
    }
    false
}

/// The first exception tag the lowercased log mentions, in the order XUD,
/// XGP, XPF, XDF.
pub open spec fn spec_exception_tag(lower: Seq<char>) -> Option<Seq<char>> {
    if spec_contains(lower, "xud"@) {
        Some("XUD"@)
    } else if spec_contains(lower, "xgp"@) {
        Some("XGP"@)
    } else if spec_contains(lower, "xpf"@) {
        Some("XPF"@)
    } else if spec_contains(lower, "xdf"@) {
        Some("XDF"@)
    } else {
        None
    }
}

pub fn detect_exception_tag(lower: &[char]) -> (r: Option<&'static str>)
    ensures
        match spec_exception_tag(lower@) {
            Some(t) => r matches Some(s) && s@ == t,
            None => r is None,
        },
{
    if contains(lower, chars_of("xud").as_slice()) {
        Some("XUD")
    } else if contains(lower, chars_of("xgp").as_slice()) {
        Some("XGP")
    } else if contains(lower, chars_of("xpf").as_slice()) {
        Some("XPF")
    } else if contains(lower, chars_of("xdf").as_slice()) {
        Some("XDF")
    } else {
        None
    }
}


/// The text that UTF-16 code units decode to, each invalid unit replaced:
/// a unit outside the surrogate range is that character; a high surrogate
/// followed by a low one is the character the pair encodes; any other
/// surrogate is U+FFFD, and decoding goes on with the next unit.
pub open spec fn utf16_lossy(units: Seq<u16>) -> Seq<char>
    decreases units.len(),
{
    if units.len() == 0 {
        Seq::empty()
    } else {
        let u = units[0];
        if u < 0xD800 || u > 0xDFFF {
            seq![u as char] + utf16_lossy(units.drop_first())
        } else if u <= 0xDBFF && units.len() >= 2 && 0xDC00 <= units[1] <= 0xDFFF {
            let c = 0x10000 + (u - 0xD800) * 0x400 + (units[1] - 0xDC00);
            seq![c as char] + utf16_lossy(units.subrange(2, units.len() as int))
        } else {
            seq!['\u{FFFD}'] + utf16_lossy(units.drop_first())
        }
    }
}

/// `String::from_utf16_lossy`, which std documents as decoding UTF-16 and
/// replacing invalid data with U+FFFD: it decodes as `char::decode_utf16`
/// does, each unpaired surrogate becoming one replacement character.
#[verifier::external_body]
fn string_from_utf16(units: &[u16]) -> (s: String)
    ensures
        s@ == utf16_lossy(units@),
{
    String::from_utf16_lossy(units)
}

/// The lowercase mapping of `str::to_lowercase`.
pub uninterp spec fn lowercase(s: Seq<char>) -> Seq<char>;

/// `str::to_lowercase`: its result is a function of the text alone; the
/// Unicode mapping itself is not stated here.
#[verifier::external_body]
fn to_lowercase(s: &str) -> (r: String)
    ensures
        r@ == lowercase(s@),
{
    s.to_lowercase()
}

/// Little-endian code units of `b` from `start`, a trailing odd byte
/// dropped.
pub open spec fn units_le(b: Seq<u8>, start: int) -> Seq<u16> {
    Seq::new(((b.len() - start) / 2) as nat, |k: int| (b[start + 2 * k] + 256 * b[start + 2 * k + 1]) as u16)
}

/// Big-endian code units of `b` from `start`, a trailing odd byte dropped.
pub open spec fn units_be(b: Seq<u8>, start: int) -> Seq<u16> {
    Seq::new(((b.len() - start) / 2) as nat, |k: int| (256 * b[start + 2 * k] + b[start + 2 * k + 1]) as u16)
}

/// Among the first `n` odd positions, how many hold a zero byte.
pub open spec fn zero_odd(b: Seq<u8>, n: nat) -> nat
    decreases n,
{
    if n == 0 {
        0
    } else {
        zero_odd(b, (n - 1) as nat) + if b[2 * (n - 1) + 1] == 0 { 1nat } else { 0nat }
    }
}

/// Text without a byte-order mark still reads as UTF-16LE when, in its first
/// 4096 bytes, more than 32 odd positions were looked at and at least 60%
/// of them are zero.
pub open spec fn looks_utf16le(b: Seq<u8>) -> bool {
    let sample = if b.len() < 4096 { b.len() as int } else { 4096 };
    let checked = sample / 2;
    checked > 32 && (zero_odd(b, checked as nat) * 100) as int / checked >= 60
}

/// The text of a raw log: UTF-16 after a byte-order mark, UTF-16LE when it
/// looks like it, else UTF-8 (its decoding when well formed, ill-formed
/// parts replaced otherwise).
pub open spec fn spec_decode_text(b: Seq<u8>) -> Seq<char> {
    if b.len() >= 2 && b[0] == 0xFF && b[1] == 0xFE {
        utf16_lossy(units_le(b, 2))
    } else if b.len() >= 2 && b[0] == 0xFE && b[1] == 0xFF {
        utf16_lossy(units_be(b, 2))
    } else if looks_utf16le(b) {
        utf16_lossy(units_le(b, 0))
    } else if valid_utf8(b) {
        decode_utf8(b)
    } else {
        utf8_lossy(b)
    }
}

fn code_units(b: &[u8], start: usize, big_endian: bool) -> (u: Vec<u16>)
    requires
        start <= b@.len(),
    ensures
        u@ == (if big_endian { units_be(b@, start as int) } else { units_le(b@, start as int) }),
{
    let mut u: Vec<u16> = Vec::new();
    let mut i = start;
    while i < b.len() && b.len() - i >= 2
        invariant
            start <= i <= b@.len(),
            (i - start) % 2 == 0,
            u@.len() == (i - start) / 2,
            forall|k: int| 0 <= k < u@.len() ==> #[trigger] u@[k] == (if big_endian {
                (256 * b@[start + 2 * k] + b@[start + 2 * k + 1]) as u16
            } else {
                (b@[start + 2 * k] + 256 * b@[start + 2 * k + 1]) as u16
            }),
        decreases b.len() - i,
    {
        let v: u16 = if big_endian {
            (b[i] as u16) * 256 + b[i + 1] as u16
        } else {
            b[i] as u16 + (b[i + 1] as u16) * 256
        };
        u.push(v);
        i = i + 2;
    }
    proof {
        let target = if big_endian { units_be(b@, start as int) } else { units_le(b@, start as int) };
        assert(u@.len() == target.len());
        assert(u@ =~= target);
    }
    u
}

/// Decodes a raw log into text.
pub fn decode_text(raw: &[u8]) -> (s: String)
    ensures
        s@ == spec_decode_text(raw@),
{
    if raw.len() >= 2 {
        if raw[0] == 0xFF && raw[1] == 0xFE {
            let u = code_units(raw, 2, false);
            return string_from_utf16(u.as_slice());
        }
        if raw[0] == 0xFE && raw[1] == 0xFF {
            let u = code_units(raw, 2, true);
            return string_from_utf16(u.as_slice());
        }
    }
    let sample: usize = if raw.len() < 4096 { raw.len() } else { 4096 };
    let mut zero: usize = 0;
    let mut checked: usize = 0;
    let mut i: usize = 1;
    while i < sample
        invariant
            sample <= raw@.len(),
            sample <= 4096,
            i == 2 * checked + 1,
            i <= sample + 1,
            checked <= sample,
            zero == zero_odd(raw@, checked as nat),
            zero <= checked,
        decreases sample + 1 - i,
    {
        checked += 1;
        if raw[i] == 0 {
            zero += 1;
        }
        i += 2;
    }
    assert(checked == sample / 2);
    if checked > 32 && (zero * 100 / checked) >= 60 {
        let u = code_units(raw, 0, false);
        return string_from_utf16(u.as_slice());
    }
    string_from_bytes(raw)
}


/// How a log is judged.
#[derive(Clone, Copy, PartialEq, Eq, Structural, Debug)]
pub enum Mode {
    Baseline,
    Diagnostic,
    ExcAcceptance,
}

pub const REQUIRED_COUNT: usize = 14;

/// The keys of the required markers, in key order.
pub open spec fn marker_key(i: int) -> Seq<char> {
    if i == 0 {
        "bootloader"@
    } else if i == 1 {
        "disk"@
    } else if i == 2 {
        "exit_bs"@
    } else if i == 3 {
        "gop"@
    } else if i == 4 {
        "jump"@
    } else if i == 5 {
        "k00"@
    } else if i == 6 {
        "k01"@
    } else if i == 7 {
        "k07"@
    } else if i == 8 {
        "kernel_loaded"@
    } else if i == 9 {
        "r00"@
    } else if i == 10 {
        "r10"@
    } else if i == 11 {
        "s10"@
    } else if i == 12 {
        "t01"@
    } else {
        "t02"@
    }
}

/// The text each required marker is found by.
pub open spec fn marker_text(i: int) -> Seq<char> {
    if i == 0 {
        "Prometheus Bootloader"@
    } else if i == 1 {
        "Disk OK"@
    } else if i == 2 {
        "ExitBootServices OK"@
    } else if i == 3 {
        "GOP OK"@
    } else if i == 4 {
        "Jump to kernel"@
    } else if i == 5 {
        "K00 kernel entry"@
    } else if i == 6 {
        "K01 bootinfo ok"@
    } else if i == 7 {
        "K07 fabric done"@
    } else if i == 8 {
        "Kernel loaded"@
    } else if i == 9 {
        "R00 runtime start"@
    } else if i == 10 {
        "R10 tick="@
    } else if i == 11 {
        "S10 cur="@
    } else if i == 12 {
        "T01 logic alive"@
    } else {
        "T02 alive"@
    }
}

fn marker_entry(i: usize) -> (r: (&'static str, &'static str))
    requires
        i < REQUIRED_COUNT,
    ensures
        r.0@ == marker_key(i as int),
        r.1@ == marker_text(i as int),
{
    match i {
        0 => ("bootloader", "Prometheus Bootloader"),
        1 => ("disk", "Disk OK"),
        2 => ("exit_bs", "ExitBootServices OK"),
        3 => ("gop", "GOP OK"),
        4 => ("jump", "Jump to kernel"),
        5 => ("k00", "K00 kernel entry"),
        6 => ("k01", "K01 bootinfo ok"),
        7 => ("k07", "K07 fabric done"),
        8 => ("kernel_loaded", "Kernel loaded"),
        9 => ("r00", "R00 runtime start"),
        10 => ("r10", "R10 tick="),
        11 => ("s10", "S10 cur="),
        12 => ("t01", "T01 logic alive"),
        _ => ("t02", "T02 alive"),
    }
}

/// Key and presence of each required marker, in key order.
pub open spec fn spec_required(t: Seq<char>) -> Seq<(Seq<char>, bool)> {
    Seq::new(REQUIRED_COUNT as nat, |i: int| (marker_key(i), spec_contains(t, marker_text(i))))
}

/// The six boot-path markers, in the order the bootloader prints them.
pub open spec fn boot_marker(i: int) -> Seq<char> {
    if i == 0 {
        "Prometheus Bootloader"@
    } else if i == 1 {
        "GOP OK"@
    } else if i == 2 {
        "Disk OK"@
    } else if i == 3 {
        "Kernel loaded"@
    } else if i == 4 {
        "ExitBootServices OK"@
    } else {
        "Jump to kernel"@
    }
}

fn boot_marker_text(i: usize) -> (r: &'static str)
    ensures
        r@ == boot_marker(i as int),
{
    if i == 0 {
        "Prometheus Bootloader"
    } else if i == 1 {
        "GOP OK"
    } else if i == 2 {
        "Disk OK"
    } else if i == 3 {
        "Kernel loaded"
    } else if i == 4 {
        "ExitBootServices OK"
    } else {
        "Jump to kernel"
    }
}

/// `p` gives, for the boot markers `k..6`, positions where they occur,
/// strictly increasing and the first at or after `s`.
pub open spec fn boot_positions(t: Seq<char>, k: nat, s: int, p: Seq<int>) -> bool {
    &&& k <= 6
    &&& p.len() == 6 - k
    &&& forall|i: int| 0 <= i < p.len() ==> occurs_at(t, boot_marker(k + i), #[trigger] p[i])
    &&& forall|i: int| 0 <= i < p.len() - 1 ==> #[trigger] p[i] < p[i + 1]
    &&& p.len() > 0 ==> p[0] >= s
}

/// The boot sequence is complete and in order: the six boot markers occur
/// at strictly increasing positions.
pub open spec fn spec_boot_sequence_ok(t: Seq<char>) -> bool {
    exists|p: Seq<int>| boot_positions(t, 0, 0, p)
}

/// A left-to-right scan from `pos` that looks for the boot markers `k..6`
/// one after another.
pub open spec fn boot_scan(t: Seq<char>, k: nat, pos: int) -> bool
    decreases 6 - k, t.len() - pos,
{
    if k >= 6 {
        true
    } else if pos < 0 || pos >= t.len() {
        false
    } else if occurs_at(t, boot_marker(k as int), pos) {
        boot_scan(t, k + 1, pos + 1)
    } else {
        boot_scan(t, k, pos + 1)
    }
}

proof fn lemma_boot_markers_nonempty(i: int)
    ensures
        boot_marker(i).len() >= 1,
{
    reveal_strlit("Prometheus Bootloader");
    reveal_strlit("GOP OK");
    reveal_strlit("Disk OK");
    reveal_strlit("Kernel loaded");
    reveal_strlit("ExitBootServices OK");
    reveal_strlit("Jump to kernel");
}

/// The scan succeeds exactly when increasing positions exist.
proof fn lemma_boot_scan(t: Seq<char>, k: nat, pos: int)
    requires
        k <= 6,
        0 <= pos,
    ensures
        boot_scan(t, k, pos) <==> exists|p: Seq<int>| boot_positions(t, k, pos, p),
    decreases 6 - k, t.len() - pos,
{
    if k >= 6 {
        assert(boot_positions(t, k, pos, Seq::<int>::empty()));
    } else if pos >= t.len() {
        assert forall|p: Seq<int>| !boot_positions(t, k, pos, p) by {
            if boot_positions(t, k, pos, p) {
                lemma_boot_markers_nonempty(k as int);
                assert(occurs_at(t, boot_marker(k + 0int), p[0]));
            }
        }
    } else if occurs_at(t, boot_marker(k as int), pos) {
        lemma_boot_scan(t, k + 1, pos + 1);
        if boot_scan(t, k + 1, pos + 1) {
            let k1: nat = k + 1;
            let s1: int = pos + 1;
            let q = choose|q: Seq<int>| boot_positions(t, k1, s1, q);
            let p = seq![pos] + q;
            assert forall|i: int| 0 <= i < p.len() implies occurs_at(t, boot_marker(k + i), #[trigger] p[i]) by {
                if i > 0 {
                    assert(p[i] == q[i - 1]);
                    assert(occurs_at(t, boot_marker(k + 1 + (i - 1)), q[i - 1]));
                }
            }
            assert forall|i: int| 0 <= i < p.len() - 1 implies #[trigger] p[i] < p[i + 1] by {
                if i > 0 {
                    assert(q[i - 1] < q[i]);
                }
            }
            assert(boot_positions(t, k, pos, p));
        } else {
            assert forall|p: Seq<int>| !boot_positions(t, k, pos, p) by {
                if boot_positions(t, k, pos, p) {
                    let q = p.drop_first();
                    assert forall|i: int| 0 <= i < q.len() implies occurs_at(t, boot_marker(k + 1 + i), #[trigger] q[i]) by {
                        assert(q[i] == p[i + 1]);
                        assert(occurs_at(t, boot_marker(k + (i + 1)), p[i + 1]));
                    }
                    assert forall|i: int| 0 <= i < q.len() - 1 implies #[trigger] q[i] < q[i + 1] by {
                        assert(p[i + 1] < p[i + 2]);
                    }
                    if q.len() > 0 {
                        assert(p[0] < p[1]);
                    }
                    assert(boot_positions(t, k + 1, pos + 1, q));
                }
            }
        }
    } else {
        lemma_boot_scan(t, k, pos + 1);
        if boot_scan(t, k, pos + 1) {
            let s1: int = pos + 1;
            let p = choose|p: Seq<int>| boot_positions(t, k, s1, p);
            assert(boot_positions(t, k, pos, p));
        } else {
            assert forall|p: Seq<int>| !boot_positions(t, k, pos, p) by {
                if boot_positions(t, k, pos, p) {
                    assert(occurs_at(t, boot_marker(k + 0int), p[0]));
                    assert(p[0] != pos);
                    assert(boot_positions(t, k, pos + 1, p));
                }
            }
        }
    }
}

/// Whether the six boot markers occur in order.
pub fn boot_sequence_ok(t: &[char]) -> (r: bool)
    ensures
        r == spec_boot_sequence_ok(t@),
{
    proof { lemma_boot_scan(t@, 0, 0); }
    let mut k: usize = 0;
    let mut pos: usize = 0;
    while k < 6 && pos < t.len()
        invariant
            k <= 6,
            pos <= t@.len(),
            boot_scan(t@, 0, 0) == boot_scan(t@, k as nat, pos as int),
        decreases t.len() - pos,
    {
        let m = chars_of(boot_marker_text(k));
        if occurs(t, m.as_slice(), pos) {
            k += 1;
        }
        pos += 1;
    }
    k == 6
}

/// Where the last component of a path begins, among its first `n`
/// characters: just after the last `/` or `\\`, else at 0.
pub open spec fn name_start(p: Seq<char>, n: nat) -> nat
    decreases n,
{
    if n == 0 {
        0
    } else if p[n - 1] == '/' || p[n - 1] == '\\' {
        n
    } else {
        name_start(p, (n - 1) as nat)
    }
}

/// Where the stem of a file name ends: at its first `.` from `i`, else at
/// its end.
pub open spec fn stem_end(f: Seq<char>, i: nat) -> nat
    decreases f.len() - i,
{
    if i >= f.len() {
        f.len()
    } else if f[i as int] == '.' {
        i
    } else {
        stem_end(f, i + 1)
    }
}

/// The run a log belongs to: the name of the log file up to its first `.`
/// (`boot_001` for `dist/logs/baseline/boot_001.raw.log`).
pub open spec fn spec_run_id(p: Seq<char>) -> Seq<char> {
    let st = name_start(p, p.len());
    let f = p.subrange(st as int, p.len() as int);
    f.take(stem_end(f, 0) as int)
}

proof fn lemma_name_start(p: Seq<char>, n: nat)
    requires
        n <= p.len(),
    ensures
        name_start(p, n) <= n,
    decreases n,
{
    if n > 0 {
        lemma_name_start(p, (n - 1) as nat);
    }
}

proof fn lemma_stem_end(f: Seq<char>, i: nat)
    requires
        i <= f.len(),
    ensures
        i <= stem_end(f, i) <= f.len(),
    decreases f.len() - i,
{
    if i < f.len() {
        lemma_stem_end(f, i + 1);
    }
}

/// The run id of a log path.
pub fn run_id(log_path: &str) -> (r: String)
    ensures
        r@ == spec_run_id(log_path@),
{
    let p = chars_of(log_path);
    let n = p.len();
    let mut k: usize = n;
    proof { lemma_name_start(p@, n as nat); }
    while k > 0 && !(p[k - 1] == '/' || p[k - 1] == '\\')
        invariant
            k <= n,
            n == p@.len(),
            name_start(p@, n as nat) == name_start(p@, k as nat),
        decreases k,
    {
        k -= 1;
    }
    let st = k;
    let ghost f = p@.subrange(st as int, n as int);
    proof { lemma_stem_end(f, 0); }
    let mut e: usize = st;
    while e < n && p[e] != '.'
        invariant
            st <= e <= n,
            n == p@.len(),
            f == p@.subrange(st as int, n as int),
            stem_end(f, 0) == stem_end(f, (e - st) as nat),
        decreases n - e,
    {
        assert(f[(e - st) as int] == p@[e as int]);
        e += 1;
    }
    proof {
        lemma_stem_end(f, (e - st) as nat);
        if e < n {
            assert(f[(e - st) as int] == p@[e as int]);
        }
        assert(p@.subrange(st as int, e as int) =~= f.take(stem_end(f, 0) as int));
    }
    text(log_path.substring_char(st, e))
}

/// The keys of the first `n` required markers that are absent.
pub open spec fn missing_upto(t: Seq<char>, n: nat) -> Seq<Seq<char>>
    decreases n,
{
    if n == 0 {
        Seq::empty()
    } else {
        let prev = missing_upto(t, (n - 1) as nat);
        if spec_contains(t, marker_text(n - 1)) { prev } else { prev.push(marker_key(n - 1)) }
    }
}

pub open spec fn spec_missing(t: Seq<char>) -> Seq<Seq<char>> {
    missing_upto(t, REQUIRED_COUNT as nat)
}

/// The required markers that must precede an exception, by index, in the
/// order they are reported.
pub open spec fn pre_index(j: int) -> int {
    if j == 0 { 0 } else if j == 1 { 3 } else if j == 2 { 1 } else if j == 3 { 8 } else if j == 4 { 2 }
    else if j == 5 { 4 } else if j == 6 { 5 } else if j == 7 { 7 } else { 9 }
}

pub open spec fn missing_pre_upto(t: Seq<char>, n: nat) -> Seq<Seq<char>>
    decreases n,
{
    if n == 0 {
        Seq::empty()
    } else {
        let prev = missing_pre_upto(t, (n - 1) as nat);
        let k = pre_index(n - 1);
        if spec_contains(t, marker_text(k)) { prev } else { prev.push(marker_key(k)) }
    }
}

pub open spec fn spec_missing_pre(t: Seq<char>) -> Seq<Seq<char>> {
    missing_pre_upto(t, 9)
}

/// The error counters, in key order.
pub open spec fn error_key(i: int) -> Seq<char> {
    if i == 0 {
        "E20"@
    } else if i == 1 {
        "E30"@
    } else if i == 2 {
        "E31"@
    } else if i == 3 {
        "E40"@
    } else if i == 4 {
        "E50"@
    } else if i == 5 {
        "E51"@
    } else if i == 6 {
        "exc"@
    } else {
        "panic"@
    }
}

/// A counter's value: occurrences of its texts in the lowercased log.
pub open spec fn error_value(lower: Seq<char>, i: int) -> nat {
    if i == 0 {
        spec_count(lower, "e20 ovf"@)
    } else if i == 1 {
        spec_count(lower, "e30 evq_ovf"@)
    } else if i == 2 {
        spec_count(lower, "e31 starve"@)
    } else if i == 3 {
        spec_count(lower, "e40 task_ovf_seen"@)
    } else if i == 4 {
        spec_count(lower, "e50 dl_viol"@)
    } else if i == 5 {
        spec_count(lower, "e51 dl_sum"@)
    } else if i == 6 {
        spec_count(lower, "xud"@) + spec_count(lower, "xgp"@) + spec_count(lower, "xpf"@) + spec_count(lower, "xdf"@)
    } else {
        spec_count(lower, "p00 panic"@) + spec_count(lower, " panic"@)
    }
}

pub open spec fn spec_hard_total(lower: Seq<char>) -> nat {
    error_value(lower, 0) + error_value(lower, 1) + error_value(lower, 2) + error_value(lower, 3)
        + error_value(lower, 4) + error_value(lower, 5) + error_value(lower, 6) + error_value(lower, 7)
}

pub open spec fn spec_reset_hints(lower: Seq<char>) -> nat {
    spec_count(lower, "triple fault"@) + spec_count(lower, "cpu reset"@) + spec_count(lower, " reset "@)
}

/// Keys joined by commas.
pub open spec fn join_comma(ks: Seq<Seq<char>>) -> Seq<char>
    decreases ks.len(),
{
    if ks.len() == 0 {
        Seq::empty()
    } else if ks.len() == 1 {
        ks[0]
    } else {
        join_comma(ks.drop_last()) + ","@ + ks.last()
    }
}

/// A named counter.
pub struct Count {
    pub key: String,
    pub value: u64,
}

/// A named flag.
pub struct Flag {
    pub key: String,
    pub value: bool,
}

pub struct Markers {
    pub required: Vec<Flag>,
    pub required_missing: Vec<String>,
    pub boot_sequence_ok: bool,
    pub runtime_started: bool,
    pub liveness_ok: bool,
    pub tick_monotonic: bool,
}

pub struct Metrics {
    pub tick_samples: usize,
    pub tick_first: Option<u64>,
    pub tick_last: Option<u64>,
    pub hard_error_total: u64,
}

pub struct ResetSignals {
    pub boot_repeat_after_runtime: bool,
    pub explicit_reset_hints: u64,
}

pub struct Report {
    pub run_id: String,
    pub log_path: String,
    pub mode: String,
    pub pass: bool,
    pub verdict: String,
    pub markers: Markers,
    pub errors: Vec<Count>,
    pub metrics: Metrics,
    pub reset_or_silent_fault: bool,
    pub reset_signals: ResetSignals,
    pub notes: Vec<String>,
}

pub open spec fn strings_view(v: Seq<String>) -> Seq<Seq<char>> {
    Seq::new(v.len(), |i: int| v[i]@)
}

pub open spec fn flags_view(v: Seq<Flag>) -> Seq<(Seq<char>, bool)> {
    Seq::new(v.len(), |i: int| (v[i].key@, v[i].value))
}

pub open spec fn counts_view(v: Seq<Count>) -> Seq<(Seq<char>, nat)> {
    Seq::new(v.len(), |i: int| (v[i].key@, v[i].value as nat))
}

pub open spec fn spec_errors(lower: Seq<char>) -> Seq<(Seq<char>, nat)> {
    Seq::new(8, |i: int| (error_key(i), error_value(lower, i)))
}

pub open spec fn mode_name(m: Mode) -> Seq<char> {
    match m {
        Mode::Baseline => "baseline"@,
        Mode::Diagnostic => "diagnostic"@,
        Mode::ExcAcceptance => "exc_acceptance"@,
    }
}

/// The notes the baseline and diagnostic modes share.
pub open spec fn common_notes(t: Seq<char>, lower: Seq<char>) -> Seq<Seq<char>> {
    let missing = spec_missing(t);
    let n0: Seq<Seq<char>> = if missing.len() > 0 { seq!["missing_required_markers:"@ + join_comma(missing)] } else { Seq::empty() };
    let n1 = if !spec_boot_sequence_ok(t) { n0.push("boot_sequence_not_ok"@) } else { n0 };
    let n2 = if !spec_monotonic(ticks_of(spec_lines(t))) { n1.push("tick_not_monotonic_or_missing"@) } else { n1 };
    let n3 = if spec_boot_repeat(spec_lines(t)) { n2.push("boot_sequence_repeated_after_runtime"@) } else { n2 };
    let n4 = if spec_reset_hints(lower) > 0 { n3.push("reset_hints_detected"@) } else { n3 };
    if spec_hard_total(lower) > 0 {
        n4.push(decode_utf8(crate::text::spec_lit_dec("hard_errors="@, spec_hard_total(lower))))
    } else {
        n4
    }
}

/// The notes of the exception-acceptance mode.
pub open spec fn exc_notes(t: Seq<char>, lower: Seq<char>) -> Seq<Seq<char>> {
    let n1: Seq<Seq<char>> = match spec_exception_tag(lower) {
        Some(tag) => seq!["exception="@ + tag],
        None => seq!["exception=none"@],
    };
    let n2 = if spec_boot_repeat(spec_lines(t)) { n1.push("boot_sequence_repeated_after_runtime"@) } else { n1 };
    let n3 = if spec_reset_hints(lower) > 0 { n2.push("reset_hints_detected"@) } else { n2 };
    let pre = spec_missing_pre(t);
    if pre.len() > 0 { n3.push("missing_pre_exception:"@ + join_comma(pre)) } else { n3 }
}

pub open spec fn spec_notes(t: Seq<char>, lower: Seq<char>, mode: Mode) -> Seq<Seq<char>> {
    match mode {
        Mode::ExcAcceptance => exc_notes(t, lower),
        _ => common_notes(t, lower),
    }
}

/// Whether a run passes: every required marker, the boot markers in
/// order, strictly increasing ticks and no reset signal, with no hard error
/// in baseline mode and no panic or exception in diagnostic mode; exception
/// acceptance never passes here.
pub open spec fn spec_pass(t: Seq<char>, lower: Seq<char>, mode: Mode) -> bool {
    let base = spec_missing(t).len() == 0 && spec_boot_sequence_ok(t) && spec_monotonic(ticks_of(spec_lines(t)))
        && !spec_boot_repeat(spec_lines(t)) && spec_reset_hints(lower) == 0;
    match mode {
        Mode::Baseline => base && spec_hard_total(lower) == 0,
        Mode::Diagnostic => base && error_value(lower, 7) == 0 && error_value(lower, 6) == 0,
        Mode::ExcAcceptance => false,
    }
}

/// The report of a log whose text is `t` and lowercased text `lower`.
pub open spec fn report_of(r: Report, path: Seq<char>, t: Seq<char>, lower: Seq<char>, mode: Mode) -> bool {
    let req = spec_required(t);
    let ticks = ticks_of(spec_lines(t));
    let repeat = spec_boot_repeat(spec_lines(t));
    let hints = spec_reset_hints(lower);
    &&& r.run_id@ == spec_run_id(path)
    &&& r.log_path@ == path
    &&& r.mode@ == mode_name(mode)
    &&& r.pass == spec_pass(t, lower, mode)
    &&& r.verdict@ == (if r.pass { "PASS"@ } else { "FAIL"@ })
    &&& flags_view(r.markers.required@) == req
    &&& strings_view(r.markers.required_missing@) == spec_missing(t)
    &&& r.markers.boot_sequence_ok == spec_boot_sequence_ok(t)
    &&& r.markers.runtime_started == req[9].1
    &&& r.markers.liveness_ok == (req[10].1 && req[11].1 && req[12].1 && req[13].1)
    &&& r.markers.tick_monotonic == spec_monotonic(ticks)
    &&& counts_view(r.errors@) == spec_errors(lower)
    &&& r.metrics.tick_samples == ticks.len()
    &&& r.metrics.tick_first == (if ticks.len() > 0 { Some(ticks[0]) } else { None })
    &&& r.metrics.tick_last == (if ticks.len() > 0 { Some(ticks.last()) } else { None })
    &&& r.metrics.hard_error_total == spec_hard_total(lower)
    &&& r.reset_or_silent_fault == (repeat || hints > 0)
    &&& r.reset_signals.boot_repeat_after_runtime == repeat
    &&& r.reset_signals.explicit_reset_hints == hints
    &&& strings_view(r.notes@) == spec_notes(t, lower, mode)
}


fn count_lit(t: &[char], lit: &str) -> (c: u64)
    requires
        lit@.len() > 0,
    ensures
        c == spec_count(t@, lit@),
        c * lit@.len() <= t@.len(),
{
    let n = chars_of(lit);
    count_contains(t, n.as_slice())
}

fn push_joined(s: &mut String, ks: &Vec<String>)
    ensures
        final(s)@ == old(s)@ + join_comma(strings_view(ks@)),
{
    let ghost base = s@;
    let ghost kv = strings_view(ks@);
    let mut i: usize = 0;
    assert(kv.take(0) =~= Seq::<Seq<char>>::empty());
    assert(s@ =~= base + join_comma(kv.take(0)));
    while i < ks.len()
        invariant
            i <= ks@.len(),
            kv == strings_view(ks@),
            s@ == base + join_comma(kv.take(i as int)),
        decreases ks.len() - i,
    {
        assert(kv.take(i + 1).drop_last() =~= kv.take(i as int));
        assert(kv.take(i + 1).last() == ks@[i as int]@);
        if i > 0 {
            s.append(",");
        }
        s.append(ks[i].as_str());
        proof {
            if i == 0 {
                assert(kv.take(1) =~= seq![ks@[0]@]);
                assert(s@ =~= base + join_comma(kv.take(1)));
            } else {
                assert(s@ =~= base + join_comma(kv.take(i + 1)));
            }
        }
        i += 1;
    }
    assert(kv.take(i as int) =~= kv);
}

/// Analyses a log's text: `t` as read, `lower` its lowercase form.
#[verifier::rlimit(80)]
pub fn analyze_text(log_path: &str, t: &[char], lower: &[char], mode: Mode) -> (r: Report)
    requires
        t@.len() <= 0x2000_0000_0000_0000,
        lower@.len() <= 0x2000_0000_0000_0000,
    ensures
        report_of(r, log_path@, t@, lower@, mode),
{
    let mut required: Vec<Flag> = Vec::new();
    let mut missing: Vec<String> = Vec::new();
    let mut i: usize = 0;
    while i < REQUIRED_COUNT
        invariant
            i <= REQUIRED_COUNT,
            flags_view(required@) == spec_required(t@).take(i as int),
            strings_view(missing@) == missing_upto(t@, i as nat),
        decreases REQUIRED_COUNT - i,
    {
        let (key, text_of_marker) = marker_entry(i);
        let needle = chars_of(text_of_marker);
        let present = contains(t, needle.as_slice());
        let ghost prev_req = flags_view(required@);
        let ghost prev_miss = strings_view(missing@);
        required.push(Flag { key: text(key), value: present });
        assert(flags_view(required@) =~= prev_req.push((marker_key(i as int), present)));
        assert(spec_required(t@).take(i + 1) =~= spec_required(t@).take(i as int).push((marker_key(i as int), present)));
        if !present {
            missing.push(text(key));
            assert(strings_view(missing@) =~= prev_miss.push(marker_key(i as int)));
        }
        i += 1;
    }
    assert(spec_required(t@).take(REQUIRED_COUNT as int) =~= spec_required(t@));
    let ghost req = spec_required(t@);
    assert(required@.len() == flags_view(required@).len());
    proof {
        reveal_strlit("e20 ovf");
        reveal_strlit("e30 evq_ovf");
        reveal_strlit("e31 starve");
        reveal_strlit("e40 task_ovf_seen");
        reveal_strlit("e50 dl_viol");
        reveal_strlit("e51 dl_sum");
        reveal_strlit("xud");
        reveal_strlit("xgp");
        reveal_strlit("xpf");
        reveal_strlit("xdf");
        reveal_strlit("p00 panic");
        reveal_strlit(" panic");
        reveal_strlit("triple fault");
        reveal_strlit("cpu reset");
        reveal_strlit(" reset ");
    }
    let e20 = count_lit(lower, "e20 ovf");
    let e30 = count_lit(lower, "e30 evq_ovf");
    let e31 = count_lit(lower, "e31 starve");
    let e40 = count_lit(lower, "e40 task_ovf_seen");
    let e50 = count_lit(lower, "e50 dl_viol");
    let e51 = count_lit(lower, "e51 dl_sum");
    let xud = count_lit(lower, "xud");
    let xgp = count_lit(lower, "xgp");
    let xpf = count_lit(lower, "xpf");
    let xdf = count_lit(lower, "xdf");
    let p00 = count_lit(lower, "p00 panic");
    let spanic = count_lit(lower, " panic");
    let exc = xud + xgp + xpf + xdf;
    let panic = p00 + spanic;
    let hard = e20 + e30 + e31 + e40 + e50 + e51 + exc + panic;
    let mut errors: Vec<Count> = Vec::new();
    errors.push(Count { key: text("E20"), value: e20 });
    errors.push(Count { key: text("E30"), value: e30 });
    errors.push(Count { key: text("E31"), value: e31 });
    errors.push(Count { key: text("E40"), value: e40 });
    errors.push(Count { key: text("E50"), value: e50 });
    errors.push(Count { key: text("E51"), value: e51 });
    errors.push(Count { key: text("exc"), value: exc });
    errors.push(Count { key: text("panic"), value: panic });
    assert(counts_view(errors@) =~= spec_errors(lower@));

    let ticks = extract_ticks(t);
    let mono = is_tick_monotonic(ticks.as_slice());
    let repeat = has_boot_repeat_after_runtime(t);
    let in_order = boot_sequence_ok(t);
    let hints = count_lit(lower, "triple fault") + count_lit(lower, "cpu reset") + count_lit(lower, " reset ");
    let required_ok = missing.len() == 0 && in_order;
    let reset_ok = !repeat && hints == 0;

    let mut notes: Vec<String> = Vec::new();
    let pass = match mode {
        Mode::Baseline | Mode::Diagnostic => {
            if missing.len() > 0 {
                let mut n = text("missing_required_markers:");
                push_joined(&mut n, &missing);
                notes.push(n);
            }
            if !in_order {
                notes.push(text("boot_sequence_not_ok"));
            }
            if !mono {
                notes.push(text("tick_not_monotonic_or_missing"));
            }
            if repeat {
                notes.push(text("boot_sequence_repeated_after_runtime"));
            }
            if hints > 0 {
                notes.push(text("reset_hints_detected"));
            }
            if hard > 0 {
                notes.push(crate::text::lit_dec("hard_errors=", hard));
            }
            if mode == Mode::Baseline {
                required_ok && mono && hard == 0 && reset_ok
            } else {
                required_ok && mono && panic == 0 && exc == 0 && reset_ok
            }
        },
        Mode::ExcAcceptance => {
            match detect_exception_tag(lower) {
                Some(tag) => {
                    let mut n = text("exception=");
                    n.append(tag);
                    notes.push(n);
                },
                None => notes.push(text("exception=none")),
            }
            if repeat {
                notes.push(text("boot_sequence_repeated_after_runtime"));
            }
            if hints > 0 {
                notes.push(text("reset_hints_detected"));
            }
            let mut pre: Vec<String> = Vec::new();
            let order: [usize; 9] = [0, 3, 1, 8, 2, 4, 5, 7, 9];
            let mut j: usize = 0;
            while j < 9
                invariant
                    j <= 9,
                    order@ == seq![0usize, 3, 1, 8, 2, 4, 5, 7, 9],
                    flags_view(required@) == req,
                    required@.len() == REQUIRED_COUNT,
                    req == spec_required(t@),
                    strings_view(pre@) == missing_pre_upto(t@, j as nat),
                decreases 9 - j,
            {
                let k = order[j];
                assert(k as int == pre_index(j as int));
                assert(req[k as int] == (marker_key(k as int), spec_contains(t@, marker_text(k as int))));
                let ghost prev = strings_view(pre@);
                assert(flags_view(required@)[k as int].1 == required@[k as int].value);
                if !required[k].value {
                    pre.push(text(marker_entry(k).0));
                    assert(strings_view(pre@) =~= prev.push(marker_key(k as int)));
                }
                j += 1;
            }
            if pre.len() > 0 {
                let mut n = text("missing_pre_exception:");
                push_joined(&mut n, &pre);
                notes.push(n);
            }
            false
        },
    };
    assert(strings_view(notes@) =~= spec_notes(t@, lower@, mode));
    let tick_first = if ticks.len() > 0 { Some(ticks[0]) } else { None };
    let tick_last = if ticks.len() > 0 { Some(ticks[ticks.len() - 1]) } else { None };
    let mode_text = match mode {
        Mode::Baseline => text("baseline"),
        Mode::Diagnostic => text("diagnostic"),
        Mode::ExcAcceptance => text("exc_acceptance"),
    };
    let runtime_started = required[9].value;
    let liveness_ok = required[10].value && required[11].value && required[12].value && required[13].value;
    Report {
        run_id: run_id(log_path),
        log_path: text(log_path),
        mode: mode_text,
        pass,
        verdict: if pass { text("PASS") } else { text("FAIL") },
        markers: Markers {
            required, required_missing: missing, boot_sequence_ok: in_order, runtime_started, liveness_ok,
            tick_monotonic: mono,
        },
        errors,
        metrics: Metrics { tick_samples: ticks.len(), tick_first, tick_last, hard_error_total: hard },
        reset_or_silent_fault: repeat || hints > 0,
        reset_signals: ResetSignals { boot_repeat_after_runtime: repeat, explicit_reset_hints: hints },
        notes,
    }
}


/// Notes joined by semicolons.
pub open spec fn join_semicolon(ks: Seq<Seq<char>>) -> Seq<char>
    decreases ks.len(),
{
    if ks.len() == 0 {
        Seq::empty()
    } else if ks.len() == 1 {
        ks[0]
    } else {
        join_semicolon(ks.drop_last()) + ";"@ + ks.last()
    }
}

/// The line the analyser ends with, and its exit status: `PASS <input>`
/// and 0 for a passing run; otherwise `FAIL <input> :: <reason>` and 1, the
/// reason being the notes joined by `;`, or `invariant_violation` when
/// there are none.
pub open spec fn spec_verdict_line(input: Seq<char>, pass: bool, notes: Seq<Seq<char>>) -> (Seq<char>, i32) {
    if pass {
        ("PASS "@ + input, 0)
    } else {
        let reason = if notes.len() == 0 { "invariant_violation"@ } else { join_semicolon(notes) };
        ("FAIL "@ + input + " :: "@ + reason, 1)
    }
}

fn push_joined_semicolon(s: &mut String, ks: &Vec<String>)
    ensures
        final(s)@ == old(s)@ + join_semicolon(strings_view(ks@)),
{
    let ghost base = s@;
    let ghost kv = strings_view(ks@);
    let mut i: usize = 0;
    assert(kv.take(0) =~= Seq::<Seq<char>>::empty());
    assert(s@ =~= base + join_semicolon(kv.take(0)));
    while i < ks.len()
        invariant
            i <= ks@.len(),
            kv == strings_view(ks@),
            s@ == base + join_semicolon(kv.take(i as int)),
        decreases ks.len() - i,
    {
        assert(kv.take(i + 1).drop_last() =~= kv.take(i as int));
        assert(kv.take(i + 1).last() == ks@[i as int]@);
        if i > 0 {
            s.append(";");
        }
        s.append(ks[i].as_str());
        proof {
            if i == 0 {
                assert(kv.take(1) =~= seq![ks@[0]@]);
                assert(s@ =~= base + join_semicolon(kv.take(1)));
            } else {
                assert(s@ =~= base + join_semicolon(kv.take(i + 1)));
            }
        }
        i += 1;
    }
    assert(kv.take(i as int) =~= kv);
}

/// The closing line for the log read from `input`, and the exit status.
pub fn verdict_line(input: &str, r: &Report) -> (res: (String, i32))
    ensures
        (res.0@, res.1) == spec_verdict_line(input@, r.pass, strings_view(r.notes@)),
{
    if r.pass {
        let mut l = text("PASS ");
        l.append(input);
        return (l, 0);
    }
    let mut l = text("FAIL ");
    l.append(input);
    l.append(" :: ");
    if r.notes.len() == 0 {
        l.append("invariant_violation");
    } else {
        push_joined_semicolon(&mut l, &r.notes);
    }
    (l, 1)
}

/// Longest text, in characters, the analysis takes: a `Vec<char>` cannot
/// hold more than `isize::MAX` bytes.
pub const MAX_TEXT_CHARS: u64 = 0x2000_0000_0000_0000;

/// Analyses a raw log read from `log_path`. The text and its lowercase form
/// must each fit in `MAX_TEXT_CHARS` characters; otherwise there is no
/// report.
pub fn analyze(log_path: &str, raw_bytes: &[u8], mode: Mode) -> (r: Option<Report>)
    ensures
        ({
            let t = spec_decode_text(raw_bytes@);
            let lower = lowercase(t);
            if t.len() <= MAX_TEXT_CHARS && lower.len() <= MAX_TEXT_CHARS {
                r matches Some(rep) && report_of(rep, log_path@, t, lower, mode)
            } else {
                r is None
            }
        }),
{
    let raw = decode_text(raw_bytes);
    let raw_lower = to_lowercase(raw.as_str());
    let t = chars_of(raw.as_str());
    let lower = chars_of(raw_lower.as_str());
    if t.len() as u64 > MAX_TEXT_CHARS || lower.len() as u64 > MAX_TEXT_CHARS {
        return None;
    }
    Some(analyze_text(log_path, t.as_slice(), lower.as_slice(), mode))
}

/// What the command line asks for.
pub enum CliCommand {
    Help,
    Run { input: String, output: String, mode: Mode },
}

/// The command line as a mathematical value.
pub enum CliView {
    Help,
    Run(Seq<char>, Seq<char>, Mode),
}

pub open spec fn cli_view(c: CliCommand) -> CliView {
    match c {
        CliCommand::Help => CliView::Help,
        CliCommand::Run { input, output, mode } => CliView::Run(input@, output@, mode),
    }
}

pub open spec fn usage_text() -> Seq<char> {
    "usage: --input <raw.log> --output <report.json> [--mode baseline|diagnostic|exc_acceptance]"@
}

/// The arguments from position `i` on, given what was read before them.
pub open spec fn spec_parse_args(args: Seq<Seq<char>>, i: int, input: Option<Seq<char>>, output: Option<Seq<char>>, mode: Mode) -> Result<CliView, Seq<char>>
    decreases args.len() - i,
{
    if i < 0 || i >= args.len() {
        match (input, output) {
            (Some(a), Some(b)) => Ok(CliView::Run(a, b, mode)),
            _ => Err(usage_text()),
        }
    } else {
        let a = args[i];
        if a == "--input"@ {
            if i + 1 >= args.len() { Err("missing value for --input"@) } else { spec_parse_args(args, i + 2, Some(args[i + 1]), output, mode) }
        } else if a == "--output"@ {
            if i + 1 >= args.len() { Err("missing value for --output"@) } else { spec_parse_args(args, i + 2, input, Some(args[i + 1]), mode) }
        } else if a == "--mode"@ {
            if i + 1 >= args.len() {
                Err("missing value for --mode"@)
            } else {
                let v = args[i + 1];
                if v == "baseline"@ {
                    spec_parse_args(args, i + 2, input, output, Mode::Baseline)
                } else if v == "diagnostic"@ {
                    spec_parse_args(args, i + 2, input, output, Mode::Diagnostic)
                } else if v == "exc_acceptance"@ {
                    spec_parse_args(args, i + 2, input, output, Mode::ExcAcceptance)
                } else {
                    Err("--mode must be baseline|diagnostic|exc_acceptance"@)
                }
            }
        } else if a == "-h"@ || a == "--help"@ {
            Ok(CliView::Help)
        } else {
            Err("unknown argument: "@ + a)
        }
    }
}

fn is(a: &String, lit: &str) -> (r: bool)
    ensures
        r == (a@ == lit@),
{
    *a == text(lit)
}

/// Reads the command line, the program's name first.
pub fn parse_args(args: &Vec<String>) -> (r: Result<CliCommand, String>)
    ensures
        match spec_parse_args(strings_view(args@), 1, None, None, Mode::Baseline) {
            Ok(c) => r matches Ok(cmd) && cli_view(cmd) == c,
            Err(m) => r matches Err(e) && e@ == m,
        },
{
    let ghost av = strings_view(args@);
    let mut input: Option<String> = None;
    let mut output: Option<String> = None;
    let mut mode = Mode::Baseline;
    let mut i: usize = 1;
    while i < args.len()
        invariant
            av == strings_view(args@),
            1 <= i,
            spec_parse_args(av, 1, None, None, Mode::Baseline) == spec_parse_args(av, i as int,
                match input { Some(s) => Some(s@), None => None },
                match output { Some(s) => Some(s@), None => None },
                mode),
        decreases args.len() - i,
    {
        assert(av[i as int] == args@[i as int]@);
        if is(&args[i], "--input") {
            if i + 1 >= args.len() {
                return Err(text("missing value for --input"));
            }
            assert(av[i + 1] == args@[i + 1]@);
            input = Some(args[i + 1].clone());
            i += 2;
        } else if is(&args[i], "--output") {
            if i + 1 >= args.len() {
                return Err(text("missing value for --output"));
            }
            assert(av[i + 1] == args@[i + 1]@);
            output = Some(args[i + 1].clone());
            i += 2;
        } else if is(&args[i], "--mode") {
            if i + 1 >= args.len() {
                return Err(text("missing value for --mode"));
            }
            assert(av[i + 1] == args@[i + 1]@);
            if is(&args[i + 1], "baseline") {
                mode = Mode::Baseline;
            } else if is(&args[i + 1], "diagnostic") {
                mode = Mode::Diagnostic;
            } else if is(&args[i + 1], "exc_acceptance") {
                mode = Mode::ExcAcceptance;
            } else {
                return Err(text("--mode must be baseline|diagnostic|exc_acceptance"));
            }
            i += 2;
        } else if is(&args[i], "-h") || is(&args[i], "--help") {
            return Ok(CliCommand::Help);
        } else {
            let mut m = text("unknown argument: ");
            m.append(args[i].as_str());
            return Err(m);
        }
    }
    match (input, output) {
        (Some(a), Some(b)) => Ok(CliCommand::Run { input: a, output: b, mode }),
        _ => Err(text("usage: --input <raw.log> --output <report.json> [--mode baseline|diagnostic|exc_acceptance]")),
    }
}


/// In baseline mode a log passes exactly when its report has no notes: each
/// failed condition leaves one.
pub proof fn lemma_baseline_pass_iff_no_notes(t: Seq<char>, lower: Seq<char>)
    ensures
        spec_pass(t, lower, Mode::Baseline) <==> spec_notes(t, lower, Mode::Baseline).len() == 0,
{
}


/// A diagnostic run that passes has no exception tag (`xud`, `xgp`,
/// `xpf`, `xdf`) and no panic text anywhere in its lowercased log, and the
/// same holds of a passing baseline run, which also has no hard error of
/// any kind. An exception-acceptance run never passes.
pub proof fn lemma_passing_runs_have_no_exception(t: Seq<char>, lower: Seq<char>)
    ensures
        spec_pass(t, lower, Mode::Diagnostic) ==> spec_count(lower, "xud"@) == 0 && spec_count(lower, "xgp"@) == 0
            && spec_count(lower, "xpf"@) == 0 && spec_count(lower, "xdf"@) == 0
            && spec_count(lower, "p00 panic"@) == 0 && spec_count(lower, " panic"@) == 0,
        spec_pass(t, lower, Mode::Baseline) ==> spec_count(lower, "xud"@) == 0 && spec_count(lower, "xgp"@) == 0
            && spec_count(lower, "xpf"@) == 0 && spec_count(lower, "xdf"@) == 0
            && spec_count(lower, "e20 ovf"@) == 0 && spec_count(lower, "e30 evq_ovf"@) == 0
            && spec_count(lower, "e31 starve"@) == 0 && spec_count(lower, "e40 task_ovf_seen"@) == 0
            && spec_count(lower, "e50 dl_viol"@) == 0 && spec_count(lower, "e51 dl_sum"@) == 0,
        !spec_pass(t, lower, Mode::ExcAcceptance),
{
}

} // verus!
