//! Finding the user that owns a local socket, from the kernel's socket
//! tables (`/proc/net/tcp` and the like).
use vstd::prelude::*;
use vstd::utf8::encode_utf8;
use crate::plumber::{Plumber, ProcessorKind};
use crate::router::matching::TransportType;
use crate::text::{chars_eq, chars_of, lines, literal, parse_bounded, parse_uint, spec_lines, string_from_chars};

verus! {

/// Registers the processor as `associate_uid`.
pub fn register(plumber: &mut Plumber)
    ensures
        final(plumber)@ == old(plumber)@.push(("associate_uid"@, ProcessorKind::AssociateUid)),
{
    plumber.register("associate_uid", ProcessorKind::AssociateUid);
}

/// Unicode white space, as `char::is_whitespace` and `str::trim` see it.
pub open spec fn is_unicode_ws(c: char) -> bool {
    ('\u{9}' <= c <= '\u{d}') || c == ' ' || c == '\u{85}' || c == '\u{a0}' || c == '\u{1680}'
        || ('\u{2000}' <= c <= '\u{200a}') || c == '\u{2028}' || c == '\u{2029}' || c == '\u{202f}'
        || c == '\u{205f}' || c == '\u{3000}'
}

/// ASCII white space, as `split_ascii_whitespace` sees it.
pub open spec fn is_ascii_ws(c: char) -> bool {
    c == ' ' || c == '\t' || c == '\n' || c == '\u{c}' || c == '\r'
}

/// `s` without white space at its start.
pub open spec fn trim_start(s: Seq<char>) -> Seq<char>
    decreases s.len(),
{
    if s.len() > 0 && is_unicode_ws(s[0]) { trim_start(s.drop_first()) } else { s }
}

/// `s` without white space at its end.
pub open spec fn trim_end(s: Seq<char>) -> Seq<char>
    decreases s.len(),
{
    if s.len() > 0 && is_unicode_ws(s.last()) { trim_end(s.drop_last()) } else { s }
}

/// `str::trim`.
pub open spec fn trim(s: Seq<char>) -> Seq<char> {
    trim_end(trim_start(s))
}

/// The tokens of `s` after the token `cur` already begun: the runs of
/// characters between ASCII white space.
pub open spec fn tokens_from(s: Seq<char>, cur: Seq<char>) -> Seq<Seq<char>>
    decreases s.len(),
{
    if s.len() == 0 {
        if cur.len() > 0 { seq![cur] } else { Seq::empty() }
    } else if is_ascii_ws(s[0]) {
        (if cur.len() > 0 { seq![cur] } else { Seq::empty() }) + tokens_from(s.drop_first(), Seq::empty())
    } else {
        tokens_from(s.drop_first(), cur.push(s[0]))
    }
}

/// `str::split_ascii_whitespace`.
pub open spec fn tokens(s: Seq<char>) -> Seq<Seq<char>> {
    tokens_from(s, Seq::empty())
}

/// What looking for the owner of a local port gives.
#[derive(Debug, Clone, Copy, PartialEq, Eq, Structural)]
pub enum UidScan {
    /// The owner of the socket.
    Found(u32),
    /// No socket has the port.
    NotFound,
    /// The table has no heading.
    NoHeading,
    /// The heading has no `uid` column.
    NoUidColumn,
    /// A local address whose port cannot be read.
    BadPort,
    /// The socket's line has no uid where the heading puts it.
    NoUid,
    /// The uid is no decimal number.
    BadUid,
    /// The table cannot be read at all: a local address of fewer than four
    /// bytes or cut inside a character, or a `uid` column before the fifth.
    Malformed,
}

/// Whether `b` continues a UTF-8 sequence.
pub open spec fn is_continuation(b: u8) -> bool {
    0x80 <= b < 0xc0
}

/// The port of a socket line: the last four bytes of its second token, in
/// hexadecimal.
pub open spec fn line_port(line: Seq<char>) -> Result<u16, UidScan> {
    let ts = tokens(line);
    if ts.len() < 2 {
        Err(UidScan::BadPort)
    } else {
        let b = encode_utf8(ts[1]);
        if b.len() < 4 || is_continuation(b[b.len() - 4]) {
            Err(UidScan::Malformed)
        } else {
            let t = b.skip(b.len() - 4);
            if forall|i: int| 0 <= i < 4 ==> #[trigger] t[i] < 0x80 {
                match parse_bounded(t.map_values(|x: u8| x as char), 16, 0xffff) {
                    Some(v) => Ok(v as u16),
                    None => Err(UidScan::BadPort),
                }
            } else {
                Err(UidScan::BadPort)
            }
        }
    }
}

/// The uid of the socket line whose heading puts `uid` in column `pos`.
pub open spec fn line_uid(line: Seq<char>, pos: nat) -> UidScan {
    if pos < 4 {
        UidScan::Malformed
    } else {
        let ts = tokens(line);
        if pos - 2 >= ts.len() {
            UidScan::NoUid
        } else {
            match parse_bounded(ts[pos - 2], 10, 0xffff_ffff) {
                Some(v) => UidScan::Found(v as u32),
                None => UidScan::BadUid,
            }
        }
    }
}

/// The socket lines from the last one back: the first whose port is
/// `port` gives the answer; a port that cannot be read ends the search.
pub open spec fn scan_lines(ls: Seq<Seq<char>>, pos: nat, port: u16) -> UidScan
    decreases ls.len(),
{
    if ls.len() == 0 {
        UidScan::NotFound
    } else {
        match line_port(ls.last()) {
            Err(e) => e,
            Ok(p) => if p == port { line_uid(ls.last(), pos) } else { scan_lines(ls.drop_last(), pos, port) },
        }
    }
}

/// The first column named `uid`.
pub open spec fn uid_column(ts: Seq<Seq<char>>) -> Option<nat>
    decreases ts.len(),
{
    if ts.len() == 0 {
        None
    } else if ts[0] == "uid"@ {
        Some(0)
    } else {
        match uid_column(ts.drop_first()) {
            Some(i) => Some(i + 1),
            None => None,
        }
    }
}

/// The trimmed lines of a table.
pub open spec fn trimmed_lines(content: Seq<char>) -> Seq<Seq<char>> {
    spec_lines(content).map_values(|l: Seq<char>| trim(l))
}

/// Who owns the socket on local port `port`, by the table `content`: the
/// heading (first line) says which column holds the uid; the other lines
/// are searched from the last.
pub open spec fn spec_scan_uid(content: Seq<char>, port: u16) -> UidScan {
    let ls = trimmed_lines(content);
    if ls.len() == 0 {
        UidScan::NoHeading
    } else {
        match uid_column(tokens(ls[0])) {
            None => UidScan::NoUidColumn,
            Some(pos) => scan_lines(ls.drop_first(), pos, port),
        }
    }
}

fn is_unicode_ws_exec(c: char) -> (r: bool)
    ensures
        r == is_unicode_ws(c),
{
    ('\u{9}' <= c && c <= '\u{d}') || c == ' ' || c == '\u{85}' || c == '\u{a0}' || c == '\u{1680}'
        || ('\u{2000}' <= c && c <= '\u{200a}') || c == '\u{2028}' || c == '\u{2029}' || c == '\u{202f}'
        || c == '\u{205f}' || c == '\u{3000}'
}

proof fn lemma_trim_start(s: Seq<char>, i: int)
    requires
        0 <= i <= s.len(),
        forall|k: int| 0 <= k < i ==> is_unicode_ws(#[trigger] s[k]),
    ensures
        trim_start(s) == trim_start(s.skip(i)),
    decreases i,
{
    if i > 0 {
        assert(s.skip(1) == s.drop_first());
        lemma_trim_start(s.drop_first(), i - 1);
        assert(s.drop_first().skip(i - 1) == s.skip(i));
    } else {
        assert(s.skip(0) == s);
    }
}

proof fn lemma_trim_end(s: Seq<char>, j: int)
    requires
        0 <= j <= s.len(),
        forall|k: int| j <= k < s.len() ==> is_unicode_ws(#[trigger] s[k]),
    ensures
        trim_end(s) == trim_end(s.take(j)),
    decreases s.len() - j,
{
    if j < s.len() {
        lemma_trim_end(s.drop_last(), j);
        assert(s.drop_last().take(j) == s.take(j));
    } else {
        assert(s.take(j) == s);
    }
}

/// `str::trim` on characters.
fn trim_exec(s: &[char]) -> (r: Vec<char>)
    ensures
        r@ == trim(s@),
{
    let mut i: usize = 0;
    while i < s.len() && is_unicode_ws_exec(s[i])
        invariant
            i <= s@.len(),
            forall|k: int| 0 <= k < i ==> is_unicode_ws(#[trigger] s@[k]),
        decreases s.len() - i,
    {
        i = i + 1;
    }
    proof {
        lemma_trim_start(s@, i as int);
    }
    let ghost t = s@.skip(i as int);
    assert(i == s.len() || !is_unicode_ws(t[0]));
    assert(trim_start(t) == t) by {
        if t.len() > 0 {
            assert(t[0] == s@[i as int]);
        }
    }
    let mut j: usize = s.len();
    while j > i && is_unicode_ws_exec(s[j - 1])
        invariant
            i <= j <= s@.len(),
            forall|k: int| j <= k < s@.len() ==> is_unicode_ws(#[trigger] s@[k]),
        decreases j - i,
    {
        j = j - 1;
    }
    proof {
        let tt = t;
        lemma_trim_end(tt, j - i);
        assert forall|k: int| j - i <= k < tt.len() implies is_unicode_ws(#[trigger] tt[k]) by {
            assert(tt[k] == s@[k + i]);
        }
        lemma_trim_end(tt, j - i);
        let u = tt.take(j - i);
        assert(u == s@.subrange(i as int, j as int));
        if u.len() > 0 {
            assert(u.last() == s@[j - 1]);
        }
        assert(trim_end(u) == u);
    }
    crate::text::slice_to_vec(s, i, j)
}

fn is_ascii_ws_exec(c: char) -> (r: bool)
    ensures
        r == is_ascii_ws(c),
{
    c == ' ' || c == '\t' || c == '\n' || c == '\u{c}' || c == '\r'
}

/// `str::split_ascii_whitespace` on characters.
fn tokens_exec(s: &[char]) -> (r: Vec<Vec<char>>)
    ensures
        token_views(r@) == tokens(s@),
{
    let mut out: Vec<Vec<char>> = Vec::new();
    let mut cur: Vec<char> = Vec::new();
    let mut i: usize = 0;
    assert(s@.skip(0) == s@);
    assert(token_views(out@) =~= Seq::<Seq<char>>::empty());
    assert(cur@ =~= Seq::<char>::empty());
    assert(Seq::<Seq<char>>::empty() + tokens(s@) == tokens(s@));
    while i < s.len()
        invariant
            i <= s@.len(),
            tokens(s@) == token_views(out@) + tokens_from(s@.skip(i as int), cur@),
        decreases s.len() - i,
    {
        let ghost rest = s@.skip(i as int);
        assert(rest.drop_first() == s@.skip(i + 1));
        assert(rest[0] == s@[i as int]);
        let ghost before = token_views(out@);
        if is_ascii_ws_exec(s[i]) {
            if cur.len() > 0 {
                let ghost c = cur@;
                out.push(cur);
                cur = Vec::new();
                assert(token_views(out@) == before.push(c));
                assert(before + (seq![c] + tokens_from(s@.skip(i + 1), Seq::empty()))
                    == before.push(c) + tokens_from(s@.skip(i + 1), Seq::empty()));
            } else {
                assert(Seq::<Seq<char>>::empty() + tokens_from(s@.skip(i + 1), Seq::empty())
                    == tokens_from(s@.skip(i + 1), Seq::empty()));
                assert(cur@ == Seq::<char>::empty());
            }
        } else {
            cur.push(s[i]);
        }
        i = i + 1;
    }
    if cur.len() > 0 {
        let ghost c = cur@;
        let ghost before = token_views(out@);
        out.push(cur);
        assert(token_views(out@) == before.push(c));
        assert(s@.skip(i as int).len() == 0);
    } else {
        assert(s@.skip(i as int).len() == 0);
        assert(token_views(out@) + Seq::<Seq<char>>::empty() == token_views(out@));
    }
    out
}

pub open spec fn token_views(ts: Seq<Vec<char>>) -> Seq<Seq<char>> {
    ts.map_values(|t: Vec<char>| t@)
}

fn line_port_exec(line: &[char]) -> (r: Result<u16, UidScan>)
    ensures
        r == line_port(line@),
{
    let ts = tokens_exec(line);
    assert(token_views(ts@) == tokens(line@));
    if ts.len() < 2 {
        return Err(UidScan::BadPort);
    }
    assert(ts@[1]@ == tokens(line@)[1]);
    let text = string_from_chars(ts[1].as_slice());
    let b = text.as_str().as_bytes();
    assert(b@ == encode_utf8(tokens(line@)[1]));
    let n = b.len();
    if n < 4 || (0x80 <= b[n - 4] && b[n - 4] < 0xc0) {
        return Err(UidScan::Malformed);
    }
    let ghost t = b@.skip(n - 4);
    let mut cs: Vec<char> = Vec::new();
    let mut k: usize = n - 4;
    while k < n
        invariant
            4 <= n == b@.len(),
            n - 4 <= k <= n,
            tokens(line@).len() >= 2,
            b@ == encode_utf8(tokens(line@)[1]),
            !is_continuation(b@[n - 4]),
            t == b@.skip(n - 4),
            forall|i: int| 0 <= i < k - (n - 4) ==> #[trigger] t[i] < 0x80,
            cs@ == t.take(k - (n - 4)).map_values(|x: u8| x as char),
        decreases n - k,
    {
        assert(t[k - (n - 4)] == b@[k as int]);
        if b[k] >= 0x80 {
            assert(!(t[k - (n - 4)] < 0x80));
            assert(!(forall|i: int| 0 <= i < 4 ==> #[trigger] t[i] < 0x80));
            return Err(UidScan::BadPort);
        }
        cs.push(b[k] as char);
        assert(t.take(k + 1 - (n - 4)).map_values(|x: u8| x as char)
            =~= t.take(k - (n - 4)).map_values(|x: u8| x as char).push(b@[k as int] as char));
        k = k + 1;
    }
    assert(t.take(4) == t);
    match parse_uint(cs.as_slice(), 16, 0xffff) {
        Some(v) => Ok(v as u16),
        None => Err(UidScan::BadPort),
    }
}

fn line_uid_exec(line: &[char], pos: usize) -> (r: UidScan)
    ensures
        r == line_uid(line@, pos as nat),
{
    if pos < 4 {
        return UidScan::Malformed;
    }
    let ts = tokens_exec(line);
    assert(token_views(ts@) == tokens(line@));
    if pos - 2 >= ts.len() {
        return UidScan::NoUid;
    }
    assert(ts@[pos - 2]@ == tokens(line@)[pos - 2]);
    match parse_uint(ts[pos - 2].as_slice(), 10, 0xffff_ffff) {
        Some(v) => UidScan::Found(v),
        None => UidScan::BadUid,
    }
}

fn uid_column_exec(ts: &Vec<Vec<char>>) -> (r: Option<usize>)
    ensures
        match uid_column(token_views(ts@)) {
            Some(i) => r matches Some(j) && j as nat == i,
            None => r is None,
        },
{
    let uid = literal("uid");
    let mut i: usize = 0;
    assert(token_views(ts@).skip(0) == token_views(ts@));
    while i < ts.len()
        invariant
            i <= ts@.len(),
            uid@ == "uid"@,
            uid_column(token_views(ts@)) == match uid_column(token_views(ts@).skip(i as int)) {
                Some(k) => Some((k + i) as nat),
                None => None::<nat>,
            },
        decreases ts.len() - i,
    {
        let ghost rest = token_views(ts@).skip(i as int);
        assert(rest[0] == ts@[i as int]@);
        assert(rest.drop_first() == token_views(ts@).skip(i + 1));
        if chars_eq(ts[i].as_slice(), uid.as_slice()) {
            return Some(i);
        }
        i = i + 1;
    }
    assert(token_views(ts@).skip(i as int).len() == 0);
    None
}

/// Who owns the socket on local port `port`, by the table `content`; the
/// outcome `Malformed` stands for a table that cannot be read at all.
pub fn scan_uid(content: &str, port: u16) -> (r: UidScan)
    ensures
        r == spec_scan_uid(content@, port),
{
    let cs = chars_of(content);
    let raw = lines(cs.as_slice());
    let ghost ls = trimmed_lines(content@);
    assert(cs@ == content@);
    assert(raw@.len() == ls.len());
    assert forall|j: int| 0 <= j < raw@.len() implies trim((#[trigger] raw@[j])@) == ls[j] by {
        assert(raw@[j]@ == spec_lines(content@)[j]);
    }
    if raw.len() == 0 {
        return UidScan::NoHeading;
    }
    let heading = trim_exec(raw[0].as_slice());
    assert(heading@ == ls[0]);
    let hts = tokens_exec(heading.as_slice());
    assert(token_views(hts@) == tokens(ls[0]));
    let pos = match uid_column_exec(&hts) {
        Some(p) => p,
        None => return UidScan::NoUidColumn,
    };
    let ghost body = ls.drop_first();
    assert(spec_scan_uid(content@, port) == scan_lines(body, pos as nat, port));
    let mut k: usize = raw.len();
    assert(body.take(k - 1) == body);
    while k > 1
        invariant
            1 <= k <= raw@.len(),
            raw@.len() == ls.len(),
            forall|j: int| 0 <= j < raw@.len() ==> trim((#[trigger] raw@[j])@) == ls[j],
            body == ls.drop_first(),
            spec_scan_uid(content@, port) == scan_lines(body, pos as nat, port),
            scan_lines(body, pos as nat, port) == scan_lines(body.take(k - 1), pos as nat, port),
        decreases k,
    {
        let line = trim_exec(raw[k - 1].as_slice());
        let ghost pre = body.take(k - 1);
        assert(pre.last() == ls[k - 1]);
        assert(line@ == ls[k - 1]);
        assert(pre.drop_last() == body.take(k - 2));
        match line_port_exec(line.as_slice()) {
            Err(e) => {
                assert(scan_lines(pre, pos as nat, port) == e);
                return e;
            },
            Ok(p) => {
                if p == port {
                    let u = line_uid_exec(line.as_slice(), pos);
                    assert(scan_lines(pre, pos as nat, port) == u);
                    return u;
                }
                assert(scan_lines(pre, pos as nat, port) == scan_lines(body.take(k - 2), pos as nat, port));
            },
        }
        k = k - 1;
    }
    assert(body.take(0).len() == 0);
    assert(scan_lines(body.take(0), pos as nat, port) == UidScan::NotFound);
    UidScan::NotFound
}

/// Why no owner could be told.
#[derive(Debug, Clone, Copy, PartialEq, Eq, Structural)]
pub enum FindUidError {
    NoHeading,
    NoUidColumn,
    BadPort,
    NoUid,
    BadUid,
}

/// Who owns the socket on local port `port`: `None` where no line has the
/// port. The table must be readable (see `UidScan::Malformed`).
pub fn find_uid(content: &str, port: u16) -> (r: Result<Option<u32>, FindUidError>)
    requires
        spec_scan_uid(content@, port) != UidScan::Malformed,
    ensures
        match spec_scan_uid(content@, port) {
            UidScan::Found(u) => r == Ok::<Option<u32>, FindUidError>(Some(u)),
            UidScan::NotFound => r == Ok::<Option<u32>, FindUidError>(None),
            UidScan::NoHeading => r == Err::<Option<u32>, FindUidError>(FindUidError::NoHeading),
            UidScan::NoUidColumn => r == Err::<Option<u32>, FindUidError>(FindUidError::NoUidColumn),
            UidScan::BadPort => r == Err::<Option<u32>, FindUidError>(FindUidError::BadPort),
            UidScan::NoUid => r == Err::<Option<u32>, FindUidError>(FindUidError::NoUid),
            UidScan::BadUid => r == Err::<Option<u32>, FindUidError>(FindUidError::BadUid),
            UidScan::Malformed => false,
        },
{
    match scan_uid(content, port) {
        UidScan::Found(u) => Ok(Some(u)),
        UidScan::NotFound => Ok(None),
        UidScan::NoHeading => Err(FindUidError::NoHeading),
        UidScan::NoUidColumn => Err(FindUidError::NoUidColumn),
        UidScan::BadPort => Err(FindUidError::BadPort),
        UidScan::NoUid => Err(FindUidError::NoUid),
        UidScan::BadUid => Err(FindUidError::BadUid),
        UidScan::Malformed => Err(FindUidError::BadPort),
    }
}

/// The tables to search, in order: for TCP `tcp6` first (IPv4 sockets can
/// be listed there), for UDP `udp` first.
pub fn table_paths(typ: TransportType) -> (r: Vec<&'static str>)
    ensures
        r@.len() == 2,
        typ == TransportType::Tcp ==> r@[0]@ == "/proc/net/tcp6"@ && r@[1]@ == "/proc/net/tcp"@,
        typ == TransportType::Udp ==> r@[0]@ == "/proc/net/udp"@ && r@[1]@ == "/proc/net/udp6"@,
{
    let mut r: Vec<&'static str> = Vec::new();
    match typ {
        TransportType::Tcp => {
            r.push("/proc/net/tcp6");
            r.push("/proc/net/tcp");
        },
        TransportType::Udp => {
            r.push("/proc/net/udp");
            r.push("/proc/net/udp6");
        },
    }
    r
}

/// The processor that tags a connection with the uid of its local owner.
pub struct AssociateUidProcessor {}

impl AssociateUidProcessor {
    pub fn new() -> (r: Self) {
        AssociateUidProcessor {}
    }
}

} // verus!
