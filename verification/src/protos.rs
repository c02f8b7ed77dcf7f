//! Decoding the V2Ray rule list files: protocol buffers `GeoIPList` and
//! `GeoSiteList`. The wire format is read field by field; a field whose tag
//! a message does not know is skipped by its wire type.
use vstd::prelude::*;
use vstd::utf8::{decode_utf8, valid_utf8};
use crate::bytes::copy_range;
use crate::rule_provider::rule_set::{DomainEntry, DomainType, GeoIP, GeoSite};
use crate::utils::utf8_text;

verus! {

/// `128^k`.
pub open spec fn pow128(k: nat) -> nat
    decreases k,
{
    if k == 0 { 1 } else { 128 * pow128((k - 1) as nat) }
}

/// The varint at `i` (before `end`), with `acc` the value of the `k` bytes
/// already read: its value and the position after it. At most ten bytes.
pub open spec fn varint_from(b: Seq<u8>, i: int, end: int, k: nat, acc: nat) -> Option<(nat, int)>
    decreases 10 - k,
{
    if k >= 10 || i < 0 || i >= end || i >= b.len() {
        None
    } else if b[i] < 128 {
        Some((acc + b[i] as nat * pow128(k), i + 1))
    } else {
        varint_from(b, i + 1, end, k + 1, acc + (b[i] - 128) as nat * pow128(k))
    }
}

/// The varint at `i`, before `end`.
pub open spec fn varint(b: Seq<u8>, i: int, end: int) -> Option<(nat, int)> {
    varint_from(b, i, end, 0, 0)
}

pub const TWO_32: u128 = 0x1_0000_0000;
pub const TWO_64: u128 = 0x1_0000_0000_0000_0000;

/// A field as the wire gives it.
pub enum RawField {
    /// A varint, with its whole value.
    Varint(nat),
    /// A length-delimited field, from `start` to `end`.
    Delimited(int, int),
    /// A fixed-size or unknown length-delimited field, skipped.
    Skipped,
}

/// The field at `i`, before `end`: its tag (the first varint, modulo
/// 2^32), its content and the position after it. The tags in `known` are
/// length-delimited fields of the message, whose length is read modulo
/// 2^32; other length-delimited fields are skipped with their length read
/// modulo 2^64. Wire types 3, 4, 6 and 7 are refused.
pub open spec fn read_field(b: Seq<u8>, i: int, end: int, known: Seq<nat>) -> Option<(nat, RawField, int)> {
    match varint(b, i, end) {
        None => None,
        Some((tv, j)) => {
            let tag = tv % 0x1_0000_0000;
            if known.contains(tag) {
                match varint(b, j, end) {
                    None => None,
                    Some((lv, k)) => {
                        let l = (lv % 0x1_0000_0000) as int;
                        if k + l <= end { Some((tag, RawField::Delimited(k, k + l), k + l)) } else { None }
                    },
                }
            } else if tag % 8 == 0 {
                match varint(b, j, end) {
                    None => None,
                    Some((v, k)) => Some((tag, RawField::Varint(v), k)),
                }
            } else if tag % 8 == 1 {
                if j + 8 <= end { Some((tag, RawField::Skipped, j + 8)) } else { None }
            } else if tag % 8 == 5 {
                if j + 4 <= end { Some((tag, RawField::Skipped, j + 4)) } else { None }
            } else if tag % 8 == 2 {
                match varint(b, j, end) {
                    None => None,
                    Some((lv, k)) => {
                        let l = (lv % 0x1_0000_0000_0000_0000) as int;
                        if k + l <= end { Some((tag, RawField::Skipped, k + l)) } else { None }
                    },
                }
            } else {
                None
            }
        },
    }
}

/// The fields from `i` up to `end`, in order, or `None` where one cannot be
/// read.
pub open spec fn fields(b: Seq<u8>, i: int, end: int, known: Seq<nat>) -> Option<Seq<(nat, RawField)>>
    decreases end - i,
{
    if i >= end {
        Some(Seq::empty())
    } else {
        match read_field(b, i, end, known) {
            None => None,
            Some((t, f, j)) => if j <= i || j > end {
                None
            } else {
                match fields(b, j, end, known) {
                    None => None,
                    Some(rest) => Some(seq![(t, f)] + rest),
                }
            },
        }
    }
}

proof fn lemma_varint_from_bounds(b: Seq<u8>, i: int, end: int, k: nat, acc: nat)
    requires
        acc < pow128(k),
    ensures
        varint_from(b, i, end, k, acc) matches Some((v, j)) ==> i < j <= end && v < pow128(10) && j <= i + 10 - k,
    decreases 10 - k,
{
    if k < 10 && 0 <= i < end && i < b.len() {
        lemma_pow128_mono(k + 1, 10);
        let p = pow128(k);
        if b[i] < 128 {
            let x = b[i] as nat;
            assert(acc + x * p < 128 * p) by (nonlinear_arith)
                requires acc < p, x < 128;
        } else {
            let x = (b[i] - 128) as nat;
            assert(acc + x * p < 128 * p) by (nonlinear_arith)
                requires acc < p, x < 128;
            lemma_varint_from_bounds(b, i + 1, end, k + 1, acc + x * p);
        }
    }
}

proof fn lemma_pow128_mono(a: nat, c: nat)
    requires
        a <= c,
    ensures
        pow128(a) <= pow128(c),
    decreases c - a,
{
    if a < c {
        lemma_pow128_mono(a, (c - 1) as nat);
    }
}

/// Reads the varint at `i`, before `end`.
fn read_varint(b: &[u8], i: usize, end: usize) -> (r: Option<(u128, usize)>)
    requires
        end <= b@.len(),
    ensures
        match varint(b@, i as int, end as int) {
            None => r is None,
            Some((v, j)) => r matches Some((w, k)) && w as nat == v && k as int == j,
        },
{
    proof {
        lemma_varint_from_bounds(b@, i as int, end as int, 0, 0);
        lemma_pow128_mono(0, 10);
    }
    let mut pos = i;
    let mut k: usize = 0;
    let mut acc: u128 = 0;
    let mut pw: u128 = 1;
    while k < 10
        invariant
            end <= b@.len(),
            k <= 10,
            pos == i + k,
            pw as nat == pow128(k as nat),
            acc < pw,
            pw <= pow128(10),
            varint(b@, i as int, end as int) == varint_from(b@, pos as int, end as int, k as nat, acc as nat),
        decreases 10 - k,
    {
        if pos >= end {
            return None;
        }
        let x = b[pos];
        proof {
            reveal_with_fuel(pow128, 11);
            lemma_pow128_mono((k + 1) as nat, 10);
            assert(pow128(10) == 1180591620717411303424);
        }
        if x < 128 {
            assert((acc as nat) + (x as nat) * (pw as nat) < 128 * (pw as nat)) by (nonlinear_arith)
                requires (acc as nat) < (pw as nat), (x as nat) < 128;
            return Some((acc + (x as u128) * pw, pos + 1));
        }
        let y = x - 128;
        assert((acc as nat) + (y as nat) * (pw as nat) < 128 * (pw as nat)) by (nonlinear_arith)
            requires (acc as nat) < (pw as nat), (y as nat) < 128;
        acc = acc + (y as u128) * pw;
        pw = pw * 128;
        pos = pos + 1;
        k = k + 1;
    }
    None
}

/// A field as read: the exec counterpart of `RawField`.
pub enum Field {
    Varint(u128),
    Delimited(usize, usize),
    Skipped,
}

impl Field {
    pub open spec fn raw(&self) -> RawField {
        match self {
            Field::Varint(v) => RawField::Varint(*v as nat),
            Field::Delimited(s, e) => RawField::Delimited(*s as int, *e as int),
            Field::Skipped => RawField::Skipped,
        }
    }
}

pub open spec fn fields_view(fs: Seq<(u32, Field)>) -> Seq<(nat, RawField)> {
    fs.map_values(|f: (u32, Field)| (f.0 as nat, f.1.raw()))
}

fn contains_tag(known: &[u32], t: u32) -> (r: bool)
    ensures
        r == known@.map_values(|x: u32| x as nat).contains(t as nat),
{
    let ghost kn = known@.map_values(|x: u32| x as nat);
    let mut i: usize = 0;
    while i < known.len()
        invariant
            i <= known@.len(),
            kn == known@.map_values(|x: u32| x as nat),
            forall|j: int| 0 <= j < i ==> kn[j] != t as nat,
        decreases known.len() - i,
    {
        if known[i] == t {
            assert(kn[i as int] == t as nat);
            return true;
        }
        i = i + 1;
    }
    false
}

/// Reads the field at `i`, before `end`.
fn read_field_exec(b: &[u8], i: usize, end: usize, known: &[u32]) -> (r: Option<(u32, Field, usize)>)
    requires
        end <= b@.len(),
    ensures
        match read_field(b@, i as int, end as int, known@.map_values(|x: u32| x as nat)) {
            None => r is None,
            Some((t, f, j)) => r matches Some((t2, f2, j2)) && t2 as nat == t && f2.raw() == f && j2 as int == j,
        },
{
    let (tv, j) = match read_varint(b, i, end) {
        None => return None,
        Some(x) => x,
    };
    let tag = (tv % TWO_32) as u32;
    if contains_tag(known, tag) {
        let (lv, k) = match read_varint(b, j, end) {
            None => return None,
            Some(x) => x,
        };
        let l = lv % TWO_32;
        if (k as u128) + l <= end as u128 {
            return Some((tag, Field::Delimited(k, k + l as usize), k + l as usize));
        }
        return None;
    }
    if tag % 8 == 0 {
        return match read_varint(b, j, end) {
            None => None,
            Some((v, k)) => Some((tag, Field::Varint(v), k)),
        };
    }
    if tag % 8 == 1 {
        if (j as u128) + 8 <= end as u128 {
            return Some((tag, Field::Skipped, j + 8));
        }
        return None;
    }
    if tag % 8 == 5 {
        if (j as u128) + 4 <= end as u128 {
            return Some((tag, Field::Skipped, j + 4));
        }
        return None;
    }
    if tag % 8 == 2 {
        let (lv, k) = match read_varint(b, j, end) {
            None => return None,
            Some(x) => x,
        };
        let l = lv % TWO_64;
        if (k as u128) + l <= end as u128 {
            return Some((tag, Field::Skipped, k + l as usize));
        }
        return None;
    }
    None
}

/// Reads the fields from `start` up to `end`.
pub fn read_fields(b: &[u8], start: usize, end: usize, known: &[u32]) -> (r: Option<Vec<(u32, Field)>>)
    requires
        end <= b@.len(),
    ensures
        match fields(b@, start as int, end as int, known@.map_values(|x: u32| x as nat)) {
            None => r is None,
            Some(fs) => r matches Some(v) && fields_view(v@) == fs,
        },
{
    let ghost kn = known@.map_values(|x: u32| x as nat);
    let mut out: Vec<(u32, Field)> = Vec::new();
    let mut i = start;
    assert(fields_view(out@) =~= Seq::<(nat, RawField)>::empty());
    while i < end
        invariant
            end <= b@.len(),
            kn == known@.map_values(|x: u32| x as nat),
            fields(b@, start as int, end as int, kn) == match fields(b@, i as int, end as int, kn) {
                None => None,
                Some(rest) => Some(fields_view(out@) + rest),
            },
        decreases end - i,
    {
        let ghost before = fields_view(out@);
        match read_field_exec(b, i, end, known) {
            None => return None,
            Some((t, f, j)) => {
                if j <= i || j > end {
                    return None;
                }
                let ghost fr = f.raw();
                out.push((t, f));
                assert(fields_view(out@) =~= before.push((t as nat, fr)));
                proof {
                    match fields(b@, j as int, end as int, kn) {
                        None => {},
                        Some(rest) => {
                            assert(before + (seq![(t as nat, fr)] + rest) == before.push((t as nat, fr)) + rest);
                        },
                    }
                }
                i = j;
            },
        }
    }
    assert(fields_view(out@) + Seq::<(nat, RawField)>::empty() == fields_view(out@));
    Some(out)
}

/// Every length-delimited field lies within `s..e`.
pub open spec fn ranges_within(fs: Seq<(nat, RawField)>, s: int, e: int) -> bool {
    forall|k: int| 0 <= k < fs.len() ==> (match #[trigger] fs[k].1 {
        RawField::Delimited(x, y) => s <= x <= y <= e,
        _ => true,
    })
}

pub proof fn lemma_fields_ranges(b: Seq<u8>, i: int, end: int, known: Seq<nat>)
    ensures
        fields(b, i, end, known) matches Some(fs) ==> ranges_within(fs, i, end),
    decreases end - i,
{
    if i < end {
        match read_field(b, i, end, known) {
            None => {},
            Some((t, f, j)) => {
                if j > i && j <= end {
                    lemma_fields_ranges(b, j, end, known);
                    lemma_read_field_range(b, i, end, known);
                    if let Some(rest) = fields(b, j, end, known) {
                        let fs = seq![(t, f)] + rest;
                        assert forall|k: int| 0 <= k < fs.len() implies (match #[trigger] fs[k].1 {
                            RawField::Delimited(x, y) => i <= x <= y <= end,
                            _ => true,
                        }) by {
                            if k > 0 {
                                assert(fs[k] == rest[k - 1]);
                            }
                        }
                    }
                }
            },
        }
    }
}

proof fn lemma_read_field_range(b: Seq<u8>, i: int, end: int, known: Seq<nat>)
    ensures
        read_field(b, i, end, known) matches Some((t, f, j)) ==> (match f {
            RawField::Delimited(x, y) => i <= x <= y <= end,
            _ => true,
        }),
{
    lemma_varint_from_bounds(b, i, end, 0, 0);
    if let Some((tv, j)) = varint(b, i, end) {
        lemma_varint_from_bounds(b, j, end, 0, 0);
    }
}

/// The text of bytes `s..e`, where they are UTF-8.
pub open spec fn text_at(b: Seq<u8>, s: int, e: int) -> Option<Seq<char>> {
    if valid_utf8(b.subrange(s, e)) { Some(decode_utf8(b.subrange(s, e))) } else { None }
}

fn text_at_exec(b: &[u8], s: usize, e: usize) -> (r: Option<String>)
    requires
        s <= e <= b@.len(),
    ensures
        match text_at(b@, s as int, e as int) {
            None => r is None,
            Some(t) => r matches Some(u) && u@ == t,
        },
{
    utf8_text(copy_range(b, s, e))
}

/// A network: its address bytes and prefix, the last of each field.
pub open spec fn cidr_fold(b: Seq<u8>, fs: Seq<(nat, RawField)>) -> (Seq<u8>, u32)
    decreases fs.len(),
{
    if fs.len() == 0 {
        (Seq::empty(), 0)
    } else {
        let (ip, p) = cidr_fold(b, fs.drop_last());
        match fs.last().1 {
            RawField::Delimited(s, e) => if fs.last().0 == 10 { (b.subrange(s, e), p) } else { (ip, p) },
            RawField::Varint(v) => if fs.last().0 == 16 { (ip, (v % 0x1_0000_0000) as u32) } else { (ip, p) },
            RawField::Skipped => (ip, p),
        }
    }
}

/// A `CIDR` message at `s..e`.
pub open spec fn spec_cidr(b: Seq<u8>, s: int, e: int) -> Option<(Seq<u8>, u32)> {
    match fields(b, s, e, seq![10nat]) {
        None => None,
        Some(fs) => Some(cidr_fold(b, fs)),
    }
}

/// An address list: its code (the last given) and its networks, in order.
pub open spec fn geoip_fold(b: Seq<u8>, fs: Seq<(nat, RawField)>) -> Option<(Seq<char>, Seq<(Seq<u8>, u32)>)>
    decreases fs.len(),
{
    if fs.len() == 0 {
        Some((Seq::empty(), Seq::empty()))
    } else {
        match geoip_fold(b, fs.drop_last()) {
            None => None,
            Some((cc, cs)) => match fs.last().1 {
                RawField::Delimited(s, e) => if fs.last().0 == 10 {
                    match text_at(b, s, e) {
                        None => None,
                        Some(t) => Some((t, cs)),
                    }
                } else if fs.last().0 == 18 {
                    match spec_cidr(b, s, e) {
                        None => None,
                        Some(c) => Some((cc, cs.push(c))),
                    }
                } else {
                    Some((cc, cs))
                },
                _ => Some((cc, cs)),
            },
        }
    }
}

/// A `GeoIP` message at `s..e`.
pub open spec fn spec_geoip(b: Seq<u8>, s: int, e: int) -> Option<(Seq<char>, Seq<(Seq<u8>, u32)>)> {
    match fields(b, s, e, seq![10nat, 18nat]) {
        None => None,
        Some(fs) => geoip_fold(b, fs),
    }
}

/// The address lists of a `GeoIPList`, in order.
pub open spec fn geoip_list_fold(b: Seq<u8>, fs: Seq<(nat, RawField)>) -> Option<Seq<(Seq<char>, Seq<(Seq<u8>, u32)>)>>
    decreases fs.len(),
{
    if fs.len() == 0 {
        Some(Seq::empty())
    } else {
        match geoip_list_fold(b, fs.drop_last()) {
            None => None,
            Some(ls) => match fs.last().1 {
                RawField::Delimited(s, e) => if fs.last().0 == 10 {
                    match spec_geoip(b, s, e) {
                        None => None,
                        Some(g) => Some(ls.push(g)),
                    }
                } else {
                    Some(ls)
                },
                _ => Some(ls),
            },
        }
    }
}

/// A `GeoIPList` file.
pub open spec fn spec_geoip_list(b: Seq<u8>) -> Option<Seq<(Seq<char>, Seq<(Seq<u8>, u32)>)>> {
    match fields(b, 0, b.len() as int, seq![10nat]) {
        None => None,
        Some(fs) => geoip_list_fold(b, fs),
    }
}

/// The view of a decoded address list.
pub open spec fn geoip_view(g: GeoIP) -> (Seq<char>, Seq<(Seq<u8>, u32)>) {
    (g.country_code@, g.cidr@.map_values(|c: (Vec<u8>, u32)| (c.0@, c.1)))
}

fn decode_cidr(b: &[u8], s: usize, e: usize) -> (r: Option<(Vec<u8>, u32)>)
    requires
        s <= e <= b@.len(),
    ensures
        match spec_cidr(b@, s as int, e as int) {
            None => r is None,
            Some((ip, p)) => r matches Some((ip2, p2)) && ip2@ == ip && p2 == p,
        },
{
    assert([10u32]@.map_values(|x: u32| x as nat) =~= seq![10nat]);
    let fs = match read_fields(b, s, e, &[10u32]) {
        None => return None,
        Some(fs) => fs,
    };
    let ghost fv = fields_view(fs@);
    proof {
        lemma_fields_ranges(b@, s as int, e as int, seq![10nat]);
    }
    let mut ip: Vec<u8> = Vec::new();
    let mut prefix: u32 = 0;
    let mut i: usize = 0;
    assert(fv.take(0) =~= Seq::<(nat, RawField)>::empty());
    while i < fs.len()
        invariant
            i <= fs@.len(),
            e <= b@.len(),
            fv == fields_view(fs@),
            fields(b@, s as int, e as int, seq![10nat]) == Some(fv),
            (ip@, prefix) == cidr_fold(b@, fv.take(i as int)),
            ranges_within(fv, s as int, e as int),
        decreases fs.len() - i,
    {
        assert(fv.take(i + 1).drop_last() == fv.take(i as int));
        assert(fv.take(i + 1).last() == fv[i as int]);
        let t = fs[i].0;
        assert(fv[i as int] == (t as nat, fs@[i as int].1.raw()));
        match &fs[i].1 {
            Field::Delimited(x, y) => {
                assert(fv[i as int].1 == RawField::Delimited(*x as int, *y as int));
                assert(match fv[i as int].1 {
                    RawField::Delimited(x1, y1) => s <= x1 <= y1 <= e,
                    _ => true,
                });
                if t == 10 {
                    ip = copy_range(b, *x, *y);
                }
            },
            Field::Varint(v) => {
                if t == 16 {
                    prefix = (*v % TWO_32) as u32;
                }
            },
            Field::Skipped => {},
        }
        i = i + 1;
    }
    assert(fv.take(i as int) == fv);
    Some((ip, prefix))
}

fn decode_geoip(b: &[u8], s: usize, e: usize) -> (r: Option<GeoIP>)
    requires
        s <= e <= b@.len(),
    ensures
        match spec_geoip(b@, s as int, e as int) {
            None => r is None,
            Some(g) => r matches Some(h) && geoip_view(h) == g,
        },
{
    assert([10u32, 18u32]@.map_values(|x: u32| x as nat) =~= seq![10nat, 18nat]);
    let fs = match read_fields(b, s, e, &[10u32, 18u32]) {
        None => return None,
        Some(fs) => fs,
    };
    let ghost fv = fields_view(fs@);
    proof {
        lemma_fields_ranges(b@, s as int, e as int, seq![10nat, 18nat]);
    }
    let mut g = GeoIP { country_code: String::new(), cidr: Vec::new() };
    let mut i: usize = 0;
    assert(fv.take(0) =~= Seq::<(nat, RawField)>::empty());
    assert(geoip_view(g) =~= (Seq::<char>::empty(), Seq::<(Seq<u8>, u32)>::empty()));
    while i < fs.len()
        invariant
            i <= fs@.len(),
            e <= b@.len(),
            fv == fields_view(fs@),
            fields(b@, s as int, e as int, seq![10nat, 18nat]) == Some(fv),
            geoip_fold(b@, fv.take(i as int)) == Some(geoip_view(g)),
            ranges_within(fv, s as int, e as int),
        decreases fs.len() - i,
    {
        assert(fv.take(i + 1).drop_last() == fv.take(i as int));
        assert(fv.take(i + 1).last() == fv[i as int]);
        let t = fs[i].0;
        assert(fv[i as int] == (t as nat, fs@[i as int].1.raw()));
        match &fs[i].1 {
            Field::Delimited(x, y) => {
                assert(fv[i as int].1 == RawField::Delimited(*x as int, *y as int));
                assert(match fv[i as int].1 {
                    RawField::Delimited(x1, y1) => s <= x1 <= y1 <= e,
                    _ => true,
                });
                if t == 10 {
                    match text_at_exec(b, *x, *y) {
                        None => {
                            proof { lemma_geoip_fold_stuck(b@, fv, i as int + 1); }
                            return None;
                        },
                        Some(cc) => g.country_code = cc,
                    }
                } else if t == 18 {
                    match decode_cidr(b, *x, *y) {
                        None => {
                            proof { lemma_geoip_fold_stuck(b@, fv, i as int + 1); }
                            return None;
                        },
                        Some(c) => {
                            let ghost before = g.cidr@;
                            g.cidr.push(c);
                            assert(g.cidr@.map_values(|c: (Vec<u8>, u32)| (c.0@, c.1))
                                =~= before.map_values(|c: (Vec<u8>, u32)| (c.0@, c.1)).push((c.0@, c.1)));
                        },
                    }
                }
            },
            _ => {},
        }
        i = i + 1;
    }
    assert(fv.take(i as int) == fv);
    Some(g)
}

/// Once a field fails, the whole message fails.
proof fn lemma_geoip_fold_stuck(b: Seq<u8>, fs: Seq<(nat, RawField)>, i: int)
    requires
        0 < i <= fs.len(),
        geoip_fold(b, fs.take(i)) is None,
    ensures
        geoip_fold(b, fs) is None,
    decreases fs.len() - i,
{
    if i < fs.len() {
        assert(fs.take(i + 1).drop_last() == fs.take(i));
        lemma_geoip_fold_stuck(b, fs, i + 1);
    } else {
        assert(fs.take(i) == fs);
    }
}

proof fn lemma_geoip_list_fold_stuck(b: Seq<u8>, fs: Seq<(nat, RawField)>, i: int)
    requires
        0 < i <= fs.len(),
        geoip_list_fold(b, fs.take(i)) is None,
    ensures
        geoip_list_fold(b, fs) is None,
    decreases fs.len() - i,
{
    if i < fs.len() {
        assert(fs.take(i + 1).drop_last() == fs.take(i));
        lemma_geoip_list_fold_stuck(b, fs, i + 1);
    } else {
        assert(fs.take(i) == fs);
    }
}

/// Decodes a `GeoIPList` file: its address lists, in order.
pub fn decode_geoip_list(b: &[u8]) -> (r: Option<Vec<GeoIP>>)
    ensures
        match spec_geoip_list(b@) {
            None => r is None,
            Some(ls) => r matches Some(v) && v@.map_values(|g: GeoIP| geoip_view(g)) == ls,
        },
{
    assert([10u32]@.map_values(|x: u32| x as nat) =~= seq![10nat]);
    let fs = match read_fields(b, 0, b.len(), &[10u32]) {
        None => return None,
        Some(fs) => fs,
    };
    let ghost fv = fields_view(fs@);
    proof {
        lemma_fields_ranges(b@, 0, b@.len() as int, seq![10nat]);
    }
    let mut out: Vec<GeoIP> = Vec::new();
    let mut i: usize = 0;
    assert(fv.take(0) =~= Seq::<(nat, RawField)>::empty());
    assert(out@.map_values(|g: GeoIP| geoip_view(g)) =~= Seq::<(Seq<char>, Seq<(Seq<u8>, u32)>)>::empty());
    while i < fs.len()
        invariant
            i <= fs@.len(),
            fv == fields_view(fs@),
            fields(b@, 0, b@.len() as int, seq![10nat]) == Some(fv),
            geoip_list_fold(b@, fv.take(i as int)) == Some(out@.map_values(|g: GeoIP| geoip_view(g))),
            ranges_within(fv, 0, b@.len() as int),
        decreases fs.len() - i,
    {
        assert(fv.take(i + 1).drop_last() == fv.take(i as int));
        assert(fv.take(i + 1).last() == fv[i as int]);
        let t = fs[i].0;
        assert(fv[i as int] == (t as nat, fs@[i as int].1.raw()));
        match &fs[i].1 {
            Field::Delimited(x, y) => {
                assert(fv[i as int].1 == RawField::Delimited(*x as int, *y as int));
                assert(match fv[i as int].1 {
                    RawField::Delimited(x1, y1) => 0 <= x1 <= y1 <= b@.len(),
                    _ => true,
                });
                if t == 10 {
                    match decode_geoip(b, *x, *y) {
                        None => {
                            proof { lemma_geoip_list_fold_stuck(b@, fv, i as int + 1); }
                            return None;
                        },
                        Some(g) => {
                            let ghost before = out@;
                            out.push(g);
                            assert(out@.map_values(|g: GeoIP| geoip_view(g))
                                =~= before.map_values(|g: GeoIP| geoip_view(g)).push(geoip_view(g)));
                        },
                    }
                }
            },
            _ => {},
        }
        i = i + 1;
    }
    assert(fv.take(i as int) == fv);
    Some(out)
}

/// Whether every key of an `Attribute` message is UTF-8.
pub open spec fn attr_fold(b: Seq<u8>, fs: Seq<(nat, RawField)>) -> bool
    decreases fs.len(),
{
    if fs.len() == 0 {
        true
    } else {
        attr_fold(b, fs.drop_last()) && match fs.last().1 {
            RawField::Delimited(s, e) => fs.last().0 != 10 || text_at(b, s, e) is Some,
            _ => true,
        }
    }
}

/// Whether `s..e` is a readable `Attribute` message (its value is not
/// kept).
pub open spec fn spec_attribute_ok(b: Seq<u8>, s: int, e: int) -> bool {
    match fields(b, s, e, seq![10nat]) {
        None => false,
        Some(fs) => attr_fold(b, fs),
    }
}

/// The entry type of an enum value read as a 32-bit number: 0 to 3 name
/// the types, anything else is the default, `Plain`.
pub open spec fn domain_type_of(v: nat) -> DomainType {
    let x = v % 0x1_0000_0000;
    if x == 1 {
        DomainType::Pattern
    } else if x == 2 {
        DomainType::Domain
    } else if x == 3 {
        DomainType::Full
    } else {
        DomainType::Plain
    }
}

/// A domain entry: its type and value (the last of each), every attribute
/// readable.
pub open spec fn domain_fold(b: Seq<u8>, fs: Seq<(nat, RawField)>) -> Option<(DomainType, Seq<char>)>
    decreases fs.len(),
{
    if fs.len() == 0 {
        Some((DomainType::Plain, Seq::empty()))
    } else {
        match domain_fold(b, fs.drop_last()) {
            None => None,
            Some((ty, v)) => match fs.last().1 {
                RawField::Varint(x) => if fs.last().0 == 8 { Some((domain_type_of(x), v)) } else { Some((ty, v)) },
                RawField::Delimited(s, e) => if fs.last().0 == 18 {
                    match text_at(b, s, e) {
                        None => None,
                        Some(t) => Some((ty, t)),
                    }
                } else if fs.last().0 == 26 {
                    if spec_attribute_ok(b, s, e) { Some((ty, v)) } else { None }
                } else {
                    Some((ty, v))
                },
                RawField::Skipped => Some((ty, v)),
            },
        }
    }
}

/// A `Domain` message at `s..e`.
pub open spec fn spec_domain(b: Seq<u8>, s: int, e: int) -> Option<(DomainType, Seq<char>)> {
    match fields(b, s, e, seq![18nat, 26nat]) {
        None => None,
        Some(fs) => domain_fold(b, fs),
    }
}

/// A site list: its code (the last given) and its entries, in order.
pub open spec fn geosite_fold(b: Seq<u8>, fs: Seq<(nat, RawField)>) -> Option<(Seq<char>, Seq<(DomainType, Seq<char>)>)>
    decreases fs.len(),
{
    if fs.len() == 0 {
        Some((Seq::empty(), Seq::empty()))
    } else {
        match geosite_fold(b, fs.drop_last()) {
            None => None,
            Some((cc, ds)) => match fs.last().1 {
                RawField::Delimited(s, e) => if fs.last().0 == 10 {
                    match text_at(b, s, e) {
                        None => None,
                        Some(t) => Some((t, ds)),
                    }
                } else if fs.last().0 == 18 {
                    match spec_domain(b, s, e) {
                        None => None,
                        Some(d) => Some((cc, ds.push(d))),
                    }
                } else {
                    Some((cc, ds))
                },
                _ => Some((cc, ds)),
            },
        }
    }
}

/// A `GeoSite` message at `s..e`.
pub open spec fn spec_geosite(b: Seq<u8>, s: int, e: int) -> Option<(Seq<char>, Seq<(DomainType, Seq<char>)>)> {
    match fields(b, s, e, seq![10nat, 18nat]) {
        None => None,
        Some(fs) => geosite_fold(b, fs),
    }
}

/// The site lists of a `GeoSiteList`, in order.
pub open spec fn geosite_list_fold(b: Seq<u8>, fs: Seq<(nat, RawField)>) -> Option<Seq<(Seq<char>, Seq<(DomainType, Seq<char>)>)>>
    decreases fs.len(),
{
    if fs.len() == 0 {
        Some(Seq::empty())
    } else {
        match geosite_list_fold(b, fs.drop_last()) {
            None => None,
            Some(ls) => match fs.last().1 {
                RawField::Delimited(s, e) => if fs.last().0 == 10 {
                    match spec_geosite(b, s, e) {
                        None => None,
                        Some(g) => Some(ls.push(g)),
                    }
                } else {
                    Some(ls)
                },
                _ => Some(ls),
            },
        }
    }
}

/// A `GeoSiteList` file.
pub open spec fn spec_geosite_list(b: Seq<u8>) -> Option<Seq<(Seq<char>, Seq<(DomainType, Seq<char>)>)>> {
    match fields(b, 0, b.len() as int, seq![10nat]) {
        None => None,
        Some(fs) => geosite_list_fold(b, fs),
    }
}

pub open spec fn domain_entry_view(d: DomainEntry) -> (DomainType, Seq<char>) {
    (d.type_pb, d.value@)
}

/// The view of a decoded site list.
pub open spec fn geosite_view(g: GeoSite) -> (Seq<char>, Seq<(DomainType, Seq<char>)>) {
    (g.country_code@, g.domain@.map_values(|d: DomainEntry| domain_entry_view(d)))
}

proof fn lemma_domain_fold_stuck(b: Seq<u8>, fs: Seq<(nat, RawField)>, i: int)
    requires
        0 < i <= fs.len(),
        domain_fold(b, fs.take(i)) is None,
    ensures
        domain_fold(b, fs) is None,
    decreases fs.len() - i,
{
    if i < fs.len() {
        assert(fs.take(i + 1).drop_last() == fs.take(i));
        lemma_domain_fold_stuck(b, fs, i + 1);
    } else {
        assert(fs.take(i) == fs);
    }
}

proof fn lemma_geosite_fold_stuck(b: Seq<u8>, fs: Seq<(nat, RawField)>, i: int)
    requires
        0 < i <= fs.len(),
        geosite_fold(b, fs.take(i)) is None,
    ensures
        geosite_fold(b, fs) is None,
    decreases fs.len() - i,
{
    if i < fs.len() {
        assert(fs.take(i + 1).drop_last() == fs.take(i));
        lemma_geosite_fold_stuck(b, fs, i + 1);
    } else {
        assert(fs.take(i) == fs);
    }
}

proof fn lemma_geosite_list_fold_stuck(b: Seq<u8>, fs: Seq<(nat, RawField)>, i: int)
    requires
        0 < i <= fs.len(),
        geosite_list_fold(b, fs.take(i)) is None,
    ensures
        geosite_list_fold(b, fs) is None,
    decreases fs.len() - i,
{
    if i < fs.len() {
        assert(fs.take(i + 1).drop_last() == fs.take(i));
        lemma_geosite_list_fold_stuck(b, fs, i + 1);
    } else {
        assert(fs.take(i) == fs);
    }
}

proof fn lemma_attr_fold_stuck(b: Seq<u8>, fs: Seq<(nat, RawField)>, i: int)
    requires
        0 < i <= fs.len(),
        !attr_fold(b, fs.take(i)),
    ensures
        !attr_fold(b, fs),
    decreases fs.len() - i,
{
    if i < fs.len() {
        assert(fs.take(i + 1).drop_last() == fs.take(i));
        lemma_attr_fold_stuck(b, fs, i + 1);
    } else {
        assert(fs.take(i) == fs);
    }
}

fn attribute_ok(b: &[u8], s: usize, e: usize) -> (r: bool)
    requires
        s <= e <= b@.len(),
    ensures
        r == spec_attribute_ok(b@, s as int, e as int),
{
    assert([10u32]@.map_values(|x: u32| x as nat) =~= seq![10nat]);
    let fs = match read_fields(b, s, e, &[10u32]) {
        None => return false,
        Some(fs) => fs,
    };
    let ghost fv = fields_view(fs@);
    proof {
        lemma_fields_ranges(b@, s as int, e as int, seq![10nat]);
    }
    let mut i: usize = 0;
    assert(fv.take(0) =~= Seq::<(nat, RawField)>::empty());
    while i < fs.len()
        invariant
            i <= fs@.len(),
            e <= b@.len(),
            fv == fields_view(fs@),
            fields(b@, s as int, e as int, seq![10nat]) == Some(fv),
            attr_fold(b@, fv.take(i as int)),
            ranges_within(fv, s as int, e as int),
        decreases fs.len() - i,
    {
        assert(fv.take(i + 1).drop_last() == fv.take(i as int));
        assert(fv.take(i + 1).last() == fv[i as int]);
        let t = fs[i].0;
        assert(fv[i as int] == (t as nat, fs@[i as int].1.raw()));
        match &fs[i].1 {
            Field::Delimited(x, y) => {
                assert(fv[i as int].1 == RawField::Delimited(*x as int, *y as int));
                assert(match fv[i as int].1 {
                    RawField::Delimited(x1, y1) => s <= x1 <= y1 <= e,
                    _ => true,
                });
                if t == 10 {
                    if text_at_exec(b, *x, *y).is_none() {
                        proof { lemma_attr_fold_stuck(b@, fv, i as int + 1); }
                        return false;
                    }
                }
            },
            _ => {},
        }
        i = i + 1;
    }
    assert(fv.take(i as int) == fv);
    true
}

fn domain_type_exec(v: u128) -> (r: DomainType)
    ensures
        r == domain_type_of(v as nat),
{
    let x = v % TWO_32;
    if x == 1 {
        DomainType::Pattern
    } else if x == 2 {
        DomainType::Domain
    } else if x == 3 {
        DomainType::Full
    } else {
        DomainType::Plain
    }
}

fn decode_domain(b: &[u8], s: usize, e: usize) -> (r: Option<DomainEntry>)
    requires
        s <= e <= b@.len(),
    ensures
        match spec_domain(b@, s as int, e as int) {
            None => r is None,
            Some(d) => r matches Some(h) && domain_entry_view(h) == d,
        },
{
    assert([18u32, 26u32]@.map_values(|x: u32| x as nat) =~= seq![18nat, 26nat]);
    let fs = match read_fields(b, s, e, &[18u32, 26u32]) {
        None => return None,
        Some(fs) => fs,
    };
    let ghost fv = fields_view(fs@);
    proof {
        lemma_fields_ranges(b@, s as int, e as int, seq![18nat, 26nat]);
    }
    let mut d = DomainEntry { type_pb: DomainType::Plain, value: String::new() };
    let mut i: usize = 0;
    assert(fv.take(0) =~= Seq::<(nat, RawField)>::empty());
    while i < fs.len()
        invariant
            i <= fs@.len(),
            e <= b@.len(),
            fv == fields_view(fs@),
            fields(b@, s as int, e as int, seq![18nat, 26nat]) == Some(fv),
            domain_fold(b@, fv.take(i as int)) == Some(domain_entry_view(d)),
            ranges_within(fv, s as int, e as int),
        decreases fs.len() - i,
    {
        assert(fv.take(i + 1).drop_last() == fv.take(i as int));
        assert(fv.take(i + 1).last() == fv[i as int]);
        let t = fs[i].0;
        assert(fv[i as int] == (t as nat, fs@[i as int].1.raw()));
        match &fs[i].1 {
            Field::Varint(v) => {
                if t == 8 {
                    d.type_pb = domain_type_exec(*v);
                }
            },
            Field::Delimited(x, y) => {
                assert(fv[i as int].1 == RawField::Delimited(*x as int, *y as int));
                assert(match fv[i as int].1 {
                    RawField::Delimited(x1, y1) => s <= x1 <= y1 <= e,
                    _ => true,
                });
                if t == 18 {
                    match text_at_exec(b, *x, *y) {
                        None => {
                            proof { lemma_domain_fold_stuck(b@, fv, i as int + 1); }
                            return None;
                        },
                        Some(v) => d.value = v,
                    }
                } else if t == 26 {
                    if !attribute_ok(b, *x, *y) {
                        proof { lemma_domain_fold_stuck(b@, fv, i as int + 1); }
                        return None;
                    }
                }
            },
            Field::Skipped => {},
        }
        i = i + 1;
    }
    assert(fv.take(i as int) == fv);
    Some(d)
}

fn decode_geosite(b: &[u8], s: usize, e: usize) -> (r: Option<GeoSite>)
    requires
        s <= e <= b@.len(),
    ensures
        match spec_geosite(b@, s as int, e as int) {
            None => r is None,
            Some(g) => r matches Some(h) && geosite_view(h) == g,
        },
{
    assert([10u32, 18u32]@.map_values(|x: u32| x as nat) =~= seq![10nat, 18nat]);
    let fs = match read_fields(b, s, e, &[10u32, 18u32]) {
        None => return None,
        Some(fs) => fs,
    };
    let ghost fv = fields_view(fs@);
    proof {
        lemma_fields_ranges(b@, s as int, e as int, seq![10nat, 18nat]);
    }
    let mut g = GeoSite { country_code: String::new(), domain: Vec::new() };
    let mut i: usize = 0;
    assert(fv.take(0) =~= Seq::<(nat, RawField)>::empty());
    assert(geosite_view(g) =~= (Seq::<char>::empty(), Seq::<(DomainType, Seq<char>)>::empty()));
    while i < fs.len()
        invariant
            i <= fs@.len(),
            e <= b@.len(),
            fv == fields_view(fs@),
            fields(b@, s as int, e as int, seq![10nat, 18nat]) == Some(fv),
            geosite_fold(b@, fv.take(i as int)) == Some(geosite_view(g)),
            ranges_within(fv, s as int, e as int),
        decreases fs.len() - i,
    {
        assert(fv.take(i + 1).drop_last() == fv.take(i as int));
        assert(fv.take(i + 1).last() == fv[i as int]);
        let t = fs[i].0;
        assert(fv[i as int] == (t as nat, fs@[i as int].1.raw()));
        match &fs[i].1 {
            Field::Delimited(x, y) => {
                assert(fv[i as int].1 == RawField::Delimited(*x as int, *y as int));
                assert(match fv[i as int].1 {
                    RawField::Delimited(x1, y1) => s <= x1 <= y1 <= e,
                    _ => true,
                });
                if t == 10 {
                    match text_at_exec(b, *x, *y) {
                        None => {
                            proof { lemma_geosite_fold_stuck(b@, fv, i as int + 1); }
                            return None;
                        },
                        Some(cc) => g.country_code = cc,
                    }
                } else if t == 18 {
                    match decode_domain(b, *x, *y) {
                        None => {
                            proof { lemma_geosite_fold_stuck(b@, fv, i as int + 1); }
                            return None;
                        },
                        Some(d) => {
                            let ghost before = g.domain@;
                            g.domain.push(d);
                            assert(g.domain@.map_values(|d: DomainEntry| domain_entry_view(d))
                                =~= before.map_values(|d: DomainEntry| domain_entry_view(d)).push(domain_entry_view(d)));
                        },
                    }
                }
            },
            _ => {},
        }
        i = i + 1;
    }
    assert(fv.take(i as int) == fv);
    Some(g)
}

/// Decodes a `GeoSiteList` file: its site lists, in order.
pub fn decode_geosite_list(b: &[u8]) -> (r: Option<Vec<GeoSite>>)
    ensures
        match spec_geosite_list(b@) {
            None => r is None,
            Some(ls) => r matches Some(v) && v@.map_values(|g: GeoSite| geosite_view(g)) == ls,
        },
{
    assert([10u32]@.map_values(|x: u32| x as nat) =~= seq![10nat]);
    let fs = match read_fields(b, 0, b.len(), &[10u32]) {
        None => return None,
        Some(fs) => fs,
    };
    let ghost fv = fields_view(fs@);
    proof {
        lemma_fields_ranges(b@, 0, b@.len() as int, seq![10nat]);
    }
    let mut out: Vec<GeoSite> = Vec::new();
    let mut i: usize = 0;
    assert(fv.take(0) =~= Seq::<(nat, RawField)>::empty());
    assert(out@.map_values(|g: GeoSite| geosite_view(g)) =~= Seq::<(Seq<char>, Seq<(DomainType, Seq<char>)>)>::empty());
    while i < fs.len()
        invariant
            i <= fs@.len(),
            fv == fields_view(fs@),
            fields(b@, 0, b@.len() as int, seq![10nat]) == Some(fv),
            geosite_list_fold(b@, fv.take(i as int)) == Some(out@.map_values(|g: GeoSite| geosite_view(g))),
            ranges_within(fv, 0, b@.len() as int),
        decreases fs.len() - i,
    {
        assert(fv.take(i + 1).drop_last() == fv.take(i as int));
        assert(fv.take(i + 1).last() == fv[i as int]);
        let t = fs[i].0;
        assert(fv[i as int] == (t as nat, fs@[i as int].1.raw()));
        match &fs[i].1 {
            Field::Delimited(x, y) => {
                assert(fv[i as int].1 == RawField::Delimited(*x as int, *y as int));
                assert(match fv[i as int].1 {
                    RawField::Delimited(x1, y1) => 0 <= x1 <= y1 <= b@.len(),
                    _ => true,
                });
                if t == 10 {
                    match decode_geosite(b, *x, *y) {
                        None => {
                            proof { lemma_geosite_list_fold_stuck(b@, fv, i as int + 1); }
                            return None;
                        },
                        Some(g) => {
                            let ghost before = out@;
                            out.push(g);
                            assert(out@.map_values(|g: GeoSite| geosite_view(g))
                                =~= before.map_values(|g: GeoSite| geosite_view(g)).push(geosite_view(g)));
                        },
                    }
                }
            },
            _ => {},
        }
        i = i + 1;
    }
    assert(fv.take(i as int) == fv);
    Some(out)
}

/// The number of each entry type in the V2Ray file format: `Plain` 0, a
/// regular expression 1, `Domain` 2, `Full` 3.
pub open spec fn domain_type_number(t: DomainType) -> nat {
    match t {
        DomainType::Plain => 0,
        DomainType::Pattern => 1,
        DomainType::Domain => 2,
        DomainType::Full => 3,
    }
}

/// A type field's value, read as a 32-bit number, is the number of the
/// entry type it gives, where it numbers one; any other value gives the
/// default, `Plain`.
pub proof fn lemma_domain_type_numbering(v: nat)
    ensures
        v % 0x1_0000_0000 < 4 ==> domain_type_number(domain_type_of(v)) == v % 0x1_0000_0000,
        v % 0x1_0000_0000 >= 4 ==> domain_type_of(v) == DomainType::Plain,
{
}

/// A `Domain` message that holds only its type field, with a value from 0
/// to 3, decodes to the entry type of that number and an empty value.
pub proof fn lemma_decode_type_field(b: Seq<u8>, s: int)
    requires
        0 <= s,
        s + 2 <= b.len(),
        b[s] == 8,
        b[s + 1] < 4,
    ensures
        spec_domain(b, s, s + 2) matches Some((ty, v)) && domain_type_number(ty) == b[s + 1] && v.len() == 0,
{
    let known = seq![18nat, 26nat];
    assert(varint(b, s, s + 2) == Some((8nat, s + 1)));
    assert(varint(b, s + 1, s + 2) == Some((b[s + 1] as nat, s + 2)));
    assert(!known.contains(8nat)) by {
        if known.contains(8nat) {
            let i = choose|i: int| 0 <= i < known.len() && known[i] == 8nat;
            assert(known[0] == 18nat && known[1] == 26nat);
        }
    }
    assert(read_field(b, s, s + 2, known) == Some((8nat, RawField::Varint(b[s + 1] as nat), s + 2)));
    assert(fields(b, s + 2, s + 2, known) == Some(Seq::<(nat, RawField)>::empty()));
    let fs = seq![(8nat, RawField::Varint(b[s + 1] as nat))];
    assert(fields(b, s, s + 2, known) == Some(seq![(8nat, RawField::Varint(b[s + 1] as nat))] + Seq::<(nat, RawField)>::empty()));
    assert(seq![(8nat, RawField::Varint(b[s + 1] as nat))] + Seq::<(nat, RawField)>::empty() =~= fs);
    assert(fs.drop_last() =~= Seq::<(nat, RawField)>::empty());
    assert(domain_fold(b, fs.drop_last()) == Some((DomainType::Plain, Seq::<char>::empty())));
    assert(fs.last() == (8nat, RawField::Varint(b[s + 1] as nat)));
    assert(domain_fold(b, fs) == Some((domain_type_of(b[s + 1] as nat), Seq::<char>::empty())));
    assert(spec_domain(b, s, s + 2) == domain_fold(b, fs));
    lemma_domain_type_numbering(b[s + 1] as nat);
}

} // verus!
