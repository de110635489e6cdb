//! The serial log as a contract between the kernel and the boot-log
//! analyser: the tick the kernel's periodic record carries is the tick the
//! analyser reads back from it.
use vstd::prelude::*;
use vstd::utf8::{encode_utf8, decode_utf8, valid_utf8, encode_utf8_decode_utf8};
use crate::fmt::fit;
use crate::text::{spec_dec, lemma_dec_ascii, is_ascii_bytes, lemma_ascii_valid};
use crate::runtime_log::kv;
use crate::boot_log::{
    line_tick, tick_marker, occurs_at, spec_contains, spec_find, digit_run, dec_value, is_digit, ticks_of, spec_lines,
    lines_from, line_end, line_text_end, lemma_line_end, spec_decode_text, looks_utf16le, zero_odd, spec_monotonic,
};

verus! {

/// Bytes below 0x80 read as the characters they encode.
pub open spec fn ascii_text(b: Seq<u8>) -> Seq<char> {
    b.map_values(|x: u8| x as char)
}

/// The periodic timer record, as `log_tick` writes it.
pub open spec fn tick_record(tick: u64, dt: u64, missed: u64, max_dt: u64) -> Seq<u8> {
    fit(kv("R10 tick="@, tick as nat) + kv(" dt="@, dt as nat) + kv(" miss="@, missed as nat) + kv(" max="@, max_dt as nat), 96)
}

pub open spec fn is_ascii_chars(s: Seq<char>) -> bool {
    forall|i: int| 0 <= i < s.len() ==> (#[trigger] s[i] as u32) < 0x80
}

proof fn lemma_ascii_encode(s: Seq<char>)
    requires
        is_ascii_chars(s),
    ensures
        ascii_text(encode_utf8(s)) == s,
    decreases s.len(),
{
    if s.len() > 0 {
        let c = s[0];
        let v = c as u32;
        assert(v < 0x80);
        assert((v & 0x7F) == v) by (bit_vector)
            requires v < 0x80u32;
        assert(is_ascii_chars(s.drop_first())) by {
            assert forall|i: int| 0 <= i < s.drop_first().len() implies (#[trigger] s.drop_first()[i] as u32) < 0x80 by {
                assert(s.drop_first()[i] == s[i + 1]);
            }
        }
        lemma_ascii_encode(s.drop_first());
        let e = encode_utf8(s);
        assert(e == seq![((v & 0x7F) as u8)] + encode_utf8(s.drop_first()));
        assert(ascii_text(e) =~= seq![(v as u8) as char] + ascii_text(encode_utf8(s.drop_first())));
        lemma_char_byte(c);
        assert(seq![c] + s.drop_first() =~= s);
    }
}

proof fn lemma_ascii_concat(a: Seq<u8>, b: Seq<u8>)
    ensures
        ascii_text(a + b) == ascii_text(a) + ascii_text(b),
{
    assert(ascii_text(a + b) =~= ascii_text(a) + ascii_text(b));
}

proof fn lemma_ascii_take(a: Seq<u8>, n: int)
    requires
        0 <= n <= a.len(),
    ensures
        ascii_text(a.take(n)) == ascii_text(a).take(n),
{
    assert(ascii_text(a.take(n)) =~= ascii_text(a).take(n));
}

proof fn lemma_char_byte(c: char)
    requires
        (c as u32) < 0x80,
    ensures
        ((c as u32) as u8) as char == c,
{
}

proof fn lemma_byte_char(b: u8)
    ensures
        ((b as char) as u32) == b as u32,
{
}

/// The decimal digits of `n` read back as `n`.
proof fn lemma_dec_read_back(n: nat)
    ensures
        dec_value(ascii_text(spec_dec(n))) == n,
        forall|i: int| 0 <= i < spec_dec(n).len() ==> is_digit(#[trigger] ascii_text(spec_dec(n))[i]),
    decreases n,
{
    lemma_dec_ascii(n);
    let t = ascii_text(spec_dec(n));
    assert forall|i: int| 0 <= i < spec_dec(n).len() implies is_digit(#[trigger] ascii_text(spec_dec(n))[i]) by {
        assert(48 <= spec_dec(n)[i] <= 57);
    }
    if n < 10 {
        assert(t.drop_last() =~= Seq::<char>::empty());
        assert(t.last() == ((48 + n) as u8) as char);
        lemma_byte_char((48 + n) as u8);
        assert(dec_value(t) == dec_value(t.drop_last()) * 10 + ((t.last() as u32) - 48) as nat);
    } else {
        lemma_dec_read_back(n / 10);
        let d = spec_dec(n / 10);
        assert(spec_dec(n) == d.push((48 + n % 10) as u8));
        assert(t.drop_last() =~= ascii_text(d));
        assert(t.last() == ((48 + n % 10) as u8) as char);
        lemma_byte_char((48 + n % 10) as u8);
        assert(dec_value(t) == dec_value(ascii_text(d)) * 10 + n % 10);
    }
}

pub open spec fn pow10(k: nat) -> nat
    decreases k,
{
    if k == 0 { 1 } else { 10 * pow10((k - 1) as nat) }
}

proof fn lemma_dec_len(n: nat, k: nat)
    requires
        k >= 1,
        n < pow10(k),
    ensures
        spec_dec(n).len() <= k,
    decreases k,
{
    if n >= 10 {
        assert(k >= 2) by {
            if k == 1 {
                assert(pow10(1) == 10 * pow10(0));
            }
        }
        assert(n / 10 < pow10((k - 1) as nat)) by {
            assert(pow10(k) == 10 * pow10((k - 1) as nat));
        }
        lemma_dec_len(n / 10, (k - 1) as nat);
    }
}

proof fn lemma_u64_digits(n: u64)
    ensures
        spec_dec(n as nat).len() <= 20,
{
    assert(pow10(20) == 100000000000000000000nat) by {
        reveal_with_fuel(pow10, 21);
    }
    lemma_dec_len(n as nat, 20);
}

/// Where the run of digits from `k` ends when `s` holds digits up to `n`
/// and a non-digit (or its end) at `n`.
proof fn lemma_digit_run(s: Seq<char>, k: int, n: int)
    requires
        0 <= k <= n <= s.len(),
        forall|j: int| k <= j < n ==> is_digit(#[trigger] s[j]),
        n < s.len() ==> !is_digit(s[n]),
    ensures
        digit_run(s, k) == n,
    decreases n - k,
{
    if k < n {
        lemma_digit_run(s, k + 1, n);
    }
}

/// The analyser reads back, from the kernel's periodic timer record, the
/// tick the record was written for.
pub proof fn lemma_tick_record_read_back(tick: u64, dt: u64, missed: u64, max_dt: u64)
    ensures
        line_tick(ascii_text(tick_record(tick, dt, missed, max_dt))) == Some(tick),
        tick_record(tick, dt, missed, max_dt).len() >= 10,
{
    reveal_strlit("R10 tick=");
    reveal_strlit(" dt=");
    let m = "R10 tick="@;
    let sep = " dt="@;
    assert(is_ascii_chars(m));
    assert(is_ascii_chars(sep));
    lemma_ascii_encode(m);
    lemma_ascii_encode(sep);
    let dm = spec_dec(tick as nat);
    lemma_dec_read_back(tick as nat);
    lemma_u64_digits(tick);
    lemma_dec_ascii(tick as nat);
    let em = encode_utf8(m);
    let es = encode_utf8(sep);
    let rest = kv(" miss="@, missed as nat) + kv(" max="@, max_dt as nat);
    let full = kv(m, tick as nat) + kv(sep, dt as nat) + rest;
    assert(full =~= em + dm + (es + spec_dec(dt as nat) + rest));
    lemma_ascii_concat(em + dm, es + spec_dec(dt as nat) + rest);
    lemma_ascii_concat(em, dm);
    lemma_ascii_concat(es, spec_dec(dt as nat) + rest);
    assert(ascii_text(em).len() == 9);
    assert(em.len() == 9);
    assert(es.len() == 4);
    let ft = ascii_text(full);
    let tt = ascii_text(tick_record(tick, dt, missed, max_dt));
    let nd = dm.len() as int;
    assert(ft.len() == full.len());
    assert(full.len() >= 9 + nd + 4);
    // The record is cut at 96 bytes, past the digits and the blank after them.
    assert(tt == ft.take(if full.len() <= 96 { full.len() as int } else { 96 })) by {
        if full.len() <= 96 {
            assert(tick_record(tick, dt, missed, max_dt) == full);
            assert(ft.take(full.len() as int) =~= ft);
        } else {
            lemma_ascii_take(full, 96);
        }
    }
    assert(tt.len() >= 9 + nd + 1);
    assert forall|j: int| 0 <= j < 9 implies tt[j] == m[j] by {
        assert(ft[j] == ascii_text(em)[j]);
    }
    assert(tt.subrange(0, 9) =~= m);
    assert(occurs_at(tt, tick_marker(), 0));
    assert(spec_contains(tt, tick_marker()));
    let p = choose|i: int| occurs_at(tt, tick_marker(), i) && forall|j: int| 0 <= j < i ==> !occurs_at(tt, tick_marker(), j);
    assert(occurs_at(tt, tick_marker(), p) && forall|j: int| 0 <= j < p ==> !occurs_at(tt, tick_marker(), j));
    assert(p == 0) by {
        if p > 0 {
            assert(!occurs_at(tt, tick_marker(), 0));
        }
    }
    assert(spec_find(tt, tick_marker()) == Some(0int));
    let r = tt.subrange(9, tt.len() as int);
    assert forall|j: int| 0 <= j < nd implies is_digit(#[trigger] r[j]) by {
        assert(r[j] == ft[9 + j]);
        assert(ft[9 + j] == ascii_text(dm)[j]);
    }
    assert(r[nd] == ' ') by {
        assert(r[nd] == ft[9 + nd]);
        assert(ft[9 + nd] == ascii_text(es)[0]);
        assert(ascii_text(es)[0] == sep[0]);
    }
    lemma_digit_run(r, 0, nd);
    assert(r.subrange(0, nd) =~= ascii_text(dm)) by {
        assert forall|j: int| 0 <= j < nd implies r.subrange(0, nd)[j] == ascii_text(dm)[j] by {
            assert(r[j] == ft[9 + j]);
        }
    }
}

/// Printable ASCII: from the blank to the tilde.
pub open spec fn printable(b: Seq<u8>) -> bool {
    forall|i: int| 0 <= i < b.len() ==> 32 <= #[trigger] b[i] < 127
}

pub open spec fn printable_chars(s: Seq<char>) -> bool {
    forall|i: int| 0 <= i < s.len() ==> 32 <= (#[trigger] s[i] as u32) < 127
}

/// The encoding of printable characters is printable, one byte each.
proof fn lemma_printable_encode(s: Seq<char>)
    requires
        printable_chars(s),
    ensures
        printable(encode_utf8(s)),
        encode_utf8(s).len() == s.len(),
{
    assert(is_ascii_chars(s));
    lemma_ascii_encode(s);
    let e = encode_utf8(s);
    assert(ascii_text(e).len() == e.len());
    assert forall|i: int| 0 <= i < e.len() implies 32 <= #[trigger] e[i] < 127 by {
        assert(ascii_text(e)[i] == s[i]);
        lemma_byte_char(e[i]);
    }
}

proof fn lemma_printable_concat(a: Seq<u8>, b: Seq<u8>)
    requires
        printable(a),
        printable(b),
    ensures
        printable(a + b),
{
    assert forall|i: int| 0 <= i < (a + b).len() implies 32 <= #[trigger] (a + b)[i] < 127 by {
        if i < a.len() {
            assert((a + b)[i] == a[i]);
        } else {
            assert((a + b)[i] == b[i - a.len()]);
        }
    }
}

proof fn lemma_kv_printable(label: Seq<char>, v: nat)
    requires
        printable_chars(label),
    ensures
        printable(kv(label, v)),
{
    lemma_printable_encode(label);
    lemma_dec_ascii(v);
    assert(printable(spec_dec(v)));
    lemma_printable_concat(encode_utf8(label), spec_dec(v));
}

/// The timer record is printable ASCII.
proof fn lemma_tick_record_printable(tick: u64, dt: u64, missed: u64, max_dt: u64)
    ensures
        printable(tick_record(tick, dt, missed, max_dt)),
{
    reveal_strlit("R10 tick=");
    reveal_strlit(" dt=");
    reveal_strlit(" miss=");
    reveal_strlit(" max=");
    assert(printable_chars("R10 tick="@));
    assert(printable_chars(" dt="@));
    assert(printable_chars(" miss="@));
    assert(printable_chars(" max="@));
    lemma_kv_printable("R10 tick="@, tick as nat);
    lemma_kv_printable(" dt="@, dt as nat);
    lemma_kv_printable(" miss="@, missed as nat);
    lemma_kv_printable(" max="@, max_dt as nat);
    let a = kv("R10 tick="@, tick as nat);
    let b = kv(" dt="@, dt as nat);
    let c = kv(" miss="@, missed as nat);
    let d = kv(" max="@, max_dt as nat);
    lemma_printable_concat(a, b);
    lemma_printable_concat(a + b, c);
    lemma_printable_concat(a + b + c, d);
    let full = a + b + c + d;
    if full.len() > 96 {
        assert forall|i: int| 0 <= i < full.take(96).len() implies 32 <= #[trigger] full.take(96)[i] < 127 by {
            assert(full.take(96)[i] == full[i]);
        }
    }
}

/// Printable ASCII bytes decode, as UTF-8, to the characters they encode.
proof fn lemma_printable_decode(b: Seq<u8>)
    requires
        printable(b),
    ensures
        valid_utf8(b),
        decode_utf8(b) == ascii_text(b),
{
    assert(is_ascii_bytes(b));
    lemma_ascii_valid(b);
    let s = ascii_text(b);
    assert(is_ascii_chars(s)) by {
        assert forall|i: int| 0 <= i < s.len() implies (#[trigger] s[i] as u32) < 0x80 by {
            lemma_byte_char(b[i]);
        }
    }
    lemma_ascii_encode(s);
    let e = encode_utf8(s);
    assert(ascii_text(e) == s);
    assert(e =~= b) by {
        assert(e.len() == b.len());
        assert forall|i: int| 0 <= i < b.len() implies e[i] == b[i] by {
            assert(ascii_text(e)[i] == ascii_text(b)[i]);
            lemma_byte_char(e[i]);
            lemma_byte_char(b[i]);
        }
    }
    encode_utf8_decode_utf8(s);
}

proof fn lemma_zero_odd_none(b: Seq<u8>, n: nat)
    requires
        2 * n <= b.len(),
        forall|i: int| 0 <= i < b.len() ==> #[trigger] b[i] != 0,
    ensures
        zero_odd(b, n) == 0,
    decreases n,
{
    if n > 0 {
        lemma_zero_odd_none(b, (n - 1) as nat);
        assert(b[2 * (n - 1) + 1] != 0);
    }
}

/// A text without a newline is one line.
proof fn lemma_one_line(t: Seq<char>)
    requires
        t.len() > 0,
        forall|i: int| 0 <= i < t.len() ==> #[trigger] t[i] != '\n',
    ensures
        spec_lines(t) == seq![t],
{
    lemma_line_end(t, 0);
    assert(line_end(t, 0) == t.len());
    assert(line_text_end(t, 0) == t.len());
    assert(t.subrange(0, t.len() as int) =~= t);
    assert(lines_from(t, 0) =~= seq![t]);
}

/// Printable text without a byte-order mark reads as UTF-8.
proof fn lemma_decode_printable(b: Seq<u8>)
    requires
        printable(b),
        b.len() > 0,
    ensures
        spec_decode_text(b) == ascii_text(b),
        forall|i: int| 0 <= i < b.len() ==> #[trigger] ascii_text(b)[i] != '\n',
{
    lemma_printable_decode(b);
    assert(b[0] != 0xFF && b[0] != 0xFE) by {
        assert(32 <= b[0] < 127);
    }
    assert(!looks_utf16le(b)) by {
        let sample = if b.len() < 4096 { b.len() as int } else { 4096 };
        let checked = sample / 2;
        assert forall|i: int| 0 <= i < b.len() implies #[trigger] b[i] != 0 by {
            assert(32 <= b[i]);
        }
        lemma_zero_odd_none(b, checked as nat);
    }
    assert forall|i: int| 0 <= i < b.len() implies #[trigger] ascii_text(b)[i] != '\n' by {
        lemma_byte_char(b[i]);
        assert(32 <= b[i]);
    }
}

/// The boot-log analyser, given a log that holds the kernel's periodic
/// timer record, finds exactly one tick sample: the record's tick.
pub proof fn lemma_analyser_reads_tick_record(tick: u64, dt: u64, missed: u64, max_dt: u64)
    ensures
        ticks_of(spec_lines(spec_decode_text(tick_record(tick, dt, missed, max_dt)))) == seq![tick],
{
    let b = tick_record(tick, dt, missed, max_dt);
    lemma_tick_record_printable(tick, dt, missed, max_dt);
    lemma_tick_record_read_back(tick, dt, missed, max_dt);
    lemma_decode_printable(b);
    let t = ascii_text(b);
    assert(t.len() == b.len());
    lemma_one_line(t);
    assert(seq![t].drop_last() =~= Seq::<Seq<char>>::empty());
    assert(ticks_of(seq![t]) == ticks_of(Seq::<Seq<char>>::empty()).push(tick));
    assert(ticks_of(Seq::<Seq<char>>::empty()).push(tick) =~= seq![tick]);
}

/// The timer records the kernel writes, one line each, for the given
/// (tick, dt, missed, largest dt) values.
pub open spec fn record_lines(rs: Seq<(u64, u64, u64, u64)>) -> Seq<Seq<char>> {
    rs.map_values(|r: (u64, u64, u64, u64)| ascii_text(tick_record(r.0, r.1, r.2, r.3)))
}

pub open spec fn record_ticks(rs: Seq<(u64, u64, u64, u64)>) -> Seq<u64> {
    rs.map_values(|r: (u64, u64, u64, u64)| r.0)
}

/// Each of the kernel's timer records is one tick sample for the analyser,
/// in order; so records written for strictly increasing ticks pass its
/// monotonic-tick check, and records that repeat or go back fail it.
pub proof fn lemma_analyser_ticks_of_records(rs: Seq<(u64, u64, u64, u64)>)
    ensures
        ticks_of(record_lines(rs)) == record_ticks(rs),
        spec_monotonic(ticks_of(record_lines(rs))) <==> (rs.len() > 0
            && forall|i: int| 0 <= i < rs.len() - 1 ==> #[trigger] rs[i].0 < rs[i + 1].0),
    decreases rs.len(),
{
    if rs.len() > 0 {
        let last = rs.last();
        lemma_analyser_ticks_of_records(rs.drop_last());
        lemma_tick_record_read_back(last.0, last.1, last.2, last.3);
        assert(record_lines(rs).drop_last() =~= record_lines(rs.drop_last()));
        assert(record_ticks(rs) =~= record_ticks(rs.drop_last()).push(last.0));
    } else {
        assert(record_lines(rs) =~= Seq::<Seq<char>>::empty());
        assert(record_ticks(rs) =~= Seq::<u64>::empty());
    }
    let ts = ticks_of(record_lines(rs));
    assert(ts =~= record_ticks(rs));
    assert(spec_monotonic(ts) <==> (rs.len() > 0 && forall|i: int| 0 <= i < rs.len() - 1 ==> #[trigger] rs[i].0 < rs[i + 1].0)) by {
        if spec_monotonic(ts) {
            assert forall|i: int| 0 <= i < rs.len() - 1 implies #[trigger] rs[i].0 < rs[i + 1].0 by {
                assert(ts[i] < ts[i + 1]);
            }
        }
        if rs.len() > 0 && forall|i: int| 0 <= i < rs.len() - 1 ==> #[trigger] rs[i].0 < rs[i + 1].0 {
            assert forall|i: int| 0 <= i < ts.len() - 1 implies #[trigger] ts[i] < ts[i + 1] by {
                assert(rs[i].0 < rs[i + 1].0);
            }
        }
    }
}

} // verus!
