//! Parser for the kernel's memory-map listing: one line per mapping,
//! `base-end perms offset major:minor inode [path]`, all numbers
//! hexadecimal but the decimal inode. The reader that brings the lines in
//! lives outside; the grammar below is this module's own and a line is
//! accepted only when it has exactly this shape from its first byte.

use vstd::prelude::*;

use vstd::utf8::decode_utf8;
use vstd::utf8::valid_utf8;

use crate::defs::MEM_N;
use crate::defs::MEM_R;
use crate::defs::MEM_W;
use crate::defs::MEM_X;

verus! {

/// One parsed mapping line. Protection is reduced to the engine's mask
/// bits; the device numbers and the inode are truncated to their stored
/// widths as the original fields are.
pub struct MemoryMap {
    pub base: u64,
    pub end: u64,
    pub flags: u32,
    pub is_shared: bool,
    pub offset: u64,
    pub major_device: u8,
    pub minor_device: u8,
    pub inode: u32,
    pub path: Option<String>,
}

/// The value of a hexadecimal digit, or -1.
pub open spec fn spec_hex_val(b: u8) -> int {
    if 48 <= b <= 57 {
        b - 48
    } else if 97 <= b <= 102 {
        b - 87
    } else if 65 <= b <= 70 {
        b - 55
    } else {
        -1
    }
}

pub open spec fn spec_is_hex(b: u8) -> bool {
    spec_hex_val(b) >= 0
}

pub open spec fn spec_is_dec(b: u8) -> bool {
    48 <= b <= 57
}

/// Whitespace as the line grammar accepts it.
pub open spec fn spec_is_ws(b: u8) -> bool {
    b == 32 || b == 9 || b == 10 || b == 11 || b == 12 || b == 13
}

/// A byte the permission field may carry (`rwxps-`, either case).
pub open spec fn spec_is_perm(b: u8) -> bool {
    ||| b == 45
    ||| b == 114 || b == 119 || b == 120 || b == 112 || b == 115
    ||| b == 82 || b == 87 || b == 88 || b == 80 || b == 83
}

/// End of the run of hexadecimal digits starting at `i`.
pub open spec fn spec_hex_end(s: Seq<u8>, i: int) -> int
    decreases s.len() - i,
{
    if i < 0 || i >= s.len() {
        i
    } else if spec_is_hex(s[i]) {
        spec_hex_end(s, i + 1)
    } else {
        i
    }
}

/// End of the run of decimal digits starting at `i`.
pub open spec fn spec_dec_end(s: Seq<u8>, i: int) -> int
    decreases s.len() - i,
{
    if i < 0 || i >= s.len() {
        i
    } else if spec_is_dec(s[i]) {
        spec_dec_end(s, i + 1)
    } else {
        i
    }
}

/// End of the run of whitespace starting at `i`.
pub open spec fn spec_ws_end(s: Seq<u8>, i: int) -> int
    decreases s.len() - i,
{
    if i < 0 || i >= s.len() {
        i
    } else if spec_is_ws(s[i]) {
        spec_ws_end(s, i + 1)
    } else {
        i
    }
}

/// End of the run of permission bytes starting at `i`.
pub open spec fn spec_perm_end(s: Seq<u8>, i: int) -> int
    decreases s.len() - i,
{
    if i < 0 || i >= s.len() {
        i
    } else if spec_is_perm(s[i]) {
        spec_perm_end(s, i + 1)
    } else {
        i
    }
}

/// Value of the hexadecimal digits in `[i, j)`, most significant first.
pub open spec fn spec_hex_value(s: Seq<u8>, i: int, j: int) -> int
    decreases j - i,
{
    if i >= j {
        0
    } else {
        spec_hex_value(s, i, j - 1) * 16 + spec_hex_val(s[j - 1])
    }
}

/// Value of the decimal digits in `[i, j)`, most significant first.
pub open spec fn spec_dec_value(s: Seq<u8>, i: int, j: int) -> int
    decreases j - i,
{
    if i >= j {
        0
    } else {
        spec_dec_value(s, i, j - 1) * 10 + (s[j - 1] - 48)
    }
}

proof fn lemma_hex_value_nonneg(s: Seq<u8>, i: int, j: int)
    requires
        forall|m: int| i <= m < j ==> spec_is_hex(#[trigger] s[m]),
    ensures
        spec_hex_value(s, i, j) >= 0,
    decreases j - i,
{
    if i < j {
        lemma_hex_value_nonneg(s, i, j - 1);
    }
}

proof fn lemma_dec_value_nonneg(s: Seq<u8>, i: int, j: int)
    requires
        forall|m: int| i <= m < j ==> spec_is_dec(#[trigger] s[m]),
    ensures
        spec_dec_value(s, i, j) >= 0,
    decreases j - i,
{
    if i < j {
        lemma_dec_value_nonneg(s, i, j - 1);
    }
}

fn hex_digit(b: u8) -> (r: Option<u8>)
    ensures
        r is Some <==> spec_is_hex(b),
        r matches Some(v) ==> v == spec_hex_val(b),
{
    if 48 <= b && b <= 57 {
        Some(b - 48)
    } else if 97 <= b && b <= 102 {
        Some(b - 87)
    } else if 65 <= b && b <= 70 {
        Some(b - 55)
    } else {
        None
    }
}

/// Scan the hexadecimal run at `start`: where it ends, and its value
/// unless that value does not fit the address width.
fn hex_run(s: &[u8], start: usize) -> (r: (usize, Option<u64>))
    requires
        start <= s@.len(),
    ensures
        r.0 == spec_hex_end(s@, start as int),
        start <= r.0 <= s@.len(),
        forall|m: int| start <= m < r.0 ==> spec_is_hex(#[trigger] s@[m]),
        match r.1 {
            Some(v) => v == spec_hex_value(s@, start as int, r.0 as int),
            None => spec_hex_value(s@, start as int, r.0 as int) > u64::MAX,
        },
{
    let mut k: usize = start;
    let mut v: u64 = 0;
    let mut over: bool = false;
    loop
        invariant
            start <= k <= s@.len(),
            spec_hex_end(s@, start as int) == spec_hex_end(s@, k as int),
            forall|m: int| start <= m < k ==> spec_is_hex(#[trigger] s@[m]),
            !over ==> v == spec_hex_value(s@, start as int, k as int),
            over ==> spec_hex_value(s@, start as int, k as int) > u64::MAX,
        decreases s@.len() - k,
    {
        if k >= s.len() {
            proof {
                assert(spec_hex_end(s@, k as int) == k);
            }
            if over {
                return (k, None);
            }
            return (k, Some(v));
        }
        let d = match hex_digit(s[k]) {
            Some(d) => d,
            None => {
                proof {
                    assert(spec_hex_end(s@, k as int) == k);
                }
                if over {
                    return (k, None);
                }
                return (k, Some(v));
            },
        };
        if !over {
            if v > (u64::MAX - d as u64) / 16 {
                proof {
                    assert(spec_hex_value(s@, start as int, k as int + 1) == v * 16 + d);
                }
                over = true;
            } else {
                proof {
                    assert(v * 16 <= u64::MAX - d);
                }
                v = v * 16 + d as u64;
            }
        } else {
            proof {
                lemma_hex_value_nonneg(s@, start as int, k as int);
                assert(spec_hex_value(s@, start as int, k as int + 1) >= spec_hex_value(
                    s@,
                    start as int,
                    k as int,
                ));
            }
        }
        k = k + 1;
    }
}

/// Scan the decimal run at `start`: where it ends, and its value unless
/// it does not fit.
fn dec_run(s: &[u8], start: usize) -> (r: (usize, Option<u64>))
    requires
        start <= s@.len(),
    ensures
        r.0 == spec_dec_end(s@, start as int),
        start <= r.0 <= s@.len(),
        forall|m: int| start <= m < r.0 ==> spec_is_dec(#[trigger] s@[m]),
        match r.1 {
            Some(v) => v == spec_dec_value(s@, start as int, r.0 as int),
            None => spec_dec_value(s@, start as int, r.0 as int) > u64::MAX,
        },
{
    let mut k: usize = start;
    let mut v: u64 = 0;
    let mut over: bool = false;
    loop
        invariant
            start <= k <= s@.len(),
            spec_dec_end(s@, start as int) == spec_dec_end(s@, k as int),
            forall|m: int| start <= m < k ==> spec_is_dec(#[trigger] s@[m]),
            !over ==> v == spec_dec_value(s@, start as int, k as int),
            over ==> spec_dec_value(s@, start as int, k as int) > u64::MAX,
        decreases s@.len() - k,
    {
        if k >= s.len() {
            proof {
                assert(spec_dec_end(s@, k as int) == k);
            }
            if over {
                return (k, None);
            }
            return (k, Some(v));
        }
        let b = s[k];
        if !(48 <= b && b <= 57) {
            proof {
                assert(spec_dec_end(s@, k as int) == k);
            }
            if over {
                return (k, None);
            }
            return (k, Some(v));
        }
        let d = b - 48;
        if !over {
            if v > (u64::MAX - d as u64) / 10 {
                proof {
                    assert(spec_dec_value(s@, start as int, k as int + 1) == v * 10 + d);
                }
                over = true;
            } else {
                proof {
                    assert(v * 10 <= u64::MAX - d);
                }
                v = v * 10 + d as u64;
            }
        } else {
            proof {
                lemma_dec_value_nonneg(s@, start as int, k as int);
                assert(spec_dec_value(s@, start as int, k as int + 1) >= spec_dec_value(
                    s@,
                    start as int,
                    k as int,
                ));
            }
        }
        k = k + 1;
    }
}

fn ws_run(s: &[u8], start: usize) -> (r: usize)
    requires
        start <= s@.len(),
    ensures
        r == spec_ws_end(s@, start as int),
        start <= r <= s@.len(),
{
    let mut k: usize = start;
    loop
        invariant
            start <= k <= s@.len(),
            spec_ws_end(s@, start as int) == spec_ws_end(s@, k as int),
        decreases s@.len() - k,
    {
        if k >= s.len() {
            return k;
        }
        let b = s[k];
        if !(b == 32 || b == 9 || b == 10 || b == 11 || b == 12 || b == 13) {
            return k;
        }
        k = k + 1;
    }
}

fn perm_run(s: &[u8], start: usize) -> (r: usize)
    requires
        start <= s@.len(),
    ensures
        r == spec_perm_end(s@, start as int),
        start <= r <= s@.len(),
{
    let mut k: usize = start;
    loop
        invariant
            start <= k <= s@.len(),
            spec_perm_end(s@, start as int) == spec_perm_end(s@, k as int),
        decreases s@.len() - k,
    {
        if k >= s.len() {
            return k;
        }
        let b = s[k];
        if !(b == 45 || b == 114 || b == 119 || b == 120 || b == 112 || b == 115 || b == 82 || b
            == 87 || b == 88 || b == 80 || b == 83) {
            return k;
        }
        k = k + 1;
    }
}

/// The protection mask a permission field encodes: `r`, `w`, `x` at its
/// first three positions set the corresponding bits; anything else
/// (including upper case) leaves them clear.
pub open spec fn spec_wrap_flags(s: Seq<u8>, p: int) -> u32 {
    (if s[p] == 114 {
        MEM_R
    } else {
        MEM_N
    }) | (if s[p + 1] == 119 {
        MEM_W
    } else {
        MEM_N
    }) | (if s[p + 2] == 120 {
        MEM_X
    } else {
        MEM_N
    })
}

fn wrap_flags(s: &[u8], p: usize) -> (r: u32)
    requires
        p + 3 <= s@.len(),
    ensures
        r == spec_wrap_flags(s@, p as int),
{
    let a: u32 = if s[p] == 114 {
        MEM_R
    } else {
        MEM_N
    };
    let b: u32 = if s[p + 1] == 119 {
        MEM_W
    } else {
        MEM_N
    };
    let c: u32 = if s[p + 2] == 120 {
        MEM_X
    } else {
        MEM_N
    };
    a | b | c
}

/// What a well-formed mapping line parses to:
/// `(base, end, flags, is_shared, offset, major, minor, inode, path)`.
/// The line must carry this shape from its very first byte; the path is
/// everything after the whitespace that follows the inode, absent when
/// empty.
pub open spec fn spec_parse_line(s: Seq<u8>) -> Option<
    (u64, u64, u32, bool, u64, u8, u8, u32, Option<Seq<char>>),
> {
    let h1 = spec_hex_end(s, 0);
    let base = spec_hex_value(s, 0, h1);
    if h1 <= 0 || base > u64::MAX || !(h1 < s.len() && s[h1] == 45) {
        None
    } else {
        let h2 = spec_hex_end(s, h1 + 1);
        let end = spec_hex_value(s, h1 + 1, h2);
        if h2 <= h1 + 1 || end > u64::MAX {
            None
        } else {
            let w1 = spec_ws_end(s, h2);
            let p1 = spec_perm_end(s, w1);
            if w1 <= h2 || p1 - w1 < 4 {
                None
            } else {
                let flags = spec_wrap_flags(s, w1);
                let shared = s[w1 + 3] == 115;
                let w2 = spec_ws_end(s, p1);
                let h3 = spec_hex_end(s, w2);
                let off = spec_hex_value(s, w2, h3);
                if w2 <= p1 || h3 <= w2 || off > u64::MAX {
                    None
                } else {
                    let w3 = spec_ws_end(s, h3);
                    let h4 = spec_hex_end(s, w3);
                    let major = spec_hex_value(s, w3, h4);
                    if w3 <= h3 || h4 <= w3 || major > u64::MAX || !(h4 < s.len() && s[h4] == 58) {
                        None
                    } else {
                        let h5 = spec_hex_end(s, h4 + 1);
                        let minor = spec_hex_value(s, h4 + 1, h5);
                        if h5 <= h4 + 1 || minor > u64::MAX {
                            None
                        } else {
                            let w4 = spec_ws_end(s, h5);
                            let d1 = spec_dec_end(s, w4);
                            let inode = spec_dec_value(s, w4, d1);
                            if w4 <= h5 || d1 <= w4 || inode > u64::MAX {
                                None
                            } else {
                                let w5 = spec_ws_end(s, d1);
                                let rest = s.subrange(w5, s.len() as int);
                                let path = if rest.len() > 0 && valid_utf8(rest) {
                                    Some(decode_utf8(rest))
                                } else {
                                    None
                                };
                                Some(
                                    (
                                        base as u64,
                                        end as u64,
                                        flags,
                                        shared,
                                        off as u64,
                                        major as u64 as u8,
                                        minor as u64 as u8,
                                        inode as u64 as u32,
                                        path,
                                    ),
                                )
                            }
                        }
                    }
                }
            }
        }
    }
}

/// Relies on `String::from_utf8`: it succeeds exactly on valid UTF-8 and
/// the resulting string decodes those bytes.
#[verifier::external_body]
fn path_from_utf8(bytes: Vec<u8>) -> (r: Option<String>)
    ensures
        r is Some <==> valid_utf8(bytes@),
        r matches Some(s) ==> s@ == decode_utf8(bytes@),
{
    String::from_utf8(bytes).ok()
}

/// Decompose one mapping line. Nothing on any line that does not have
/// the grammar's exact shape or whose numbers do not fit their widths.
pub fn parse_line(line: &[u8]) -> (r: Option<MemoryMap>)
    ensures
        match spec_parse_line(line@) {
            Some(t) => r is Some && ({
                let m = r.unwrap();
                &&& m.base == t.0
                &&& m.end == t.1
                &&& m.flags == t.2
                &&& m.is_shared == t.3
                &&& m.offset == t.4
                &&& m.major_device == t.5
                &&& m.minor_device == t.6
                &&& m.inode == t.7
                &&& (match (m.path, t.8) {
                    (Some(p), Some(q)) => p@ == q,
                    (None, None) => true,
                    _ => false,
                })
            }),
            None => r is None,
        },
{
    let (h1, base) = hex_run(line, 0);
    if h1 == 0 {
        return None;
    }
    let base = match base {
        Some(v) => v,
        None => {
            return None;
        },
    };
    if !(h1 < line.len() && line[h1] == 45) {
        return None;
    }
    let (h2, end) = hex_run(line, h1 + 1);
    if h2 <= h1 + 1 {
        return None;
    }
    let end = match end {
        Some(v) => v,
        None => {
            return None;
        },
    };
    let w1 = ws_run(line, h2);
    if w1 <= h2 {
        return None;
    }
    let p1 = perm_run(line, w1);
    if p1 - w1 < 4 {
        return None;
    }
    let flags = wrap_flags(line, w1);
    let shared = line[w1 + 3] == 115;
    let w2 = ws_run(line, p1);
    if w2 <= p1 {
        return None;
    }
    let (h3, off) = hex_run(line, w2);
    if h3 <= w2 {
        return None;
    }
    let off = match off {
        Some(v) => v,
        None => {
            return None;
        },
    };
    let w3 = ws_run(line, h3);
    if w3 <= h3 {
        return None;
    }
    let (h4, major) = hex_run(line, w3);
    if h4 <= w3 {
        return None;
    }
    let major = match major {
        Some(v) => v,
        None => {
            return None;
        },
    };
    if !(h4 < line.len() && line[h4] == 58) {
        return None;
    }
    let (h5, minor) = hex_run(line, h4 + 1);
    if h5 <= h4 + 1 {
        return None;
    }
    let minor = match minor {
        Some(v) => v,
        None => {
            return None;
        },
    };
    let w4 = ws_run(line, h5);
    if w4 <= h5 {
        return None;
    }
    let (d1, inode) = dec_run(line, w4);
    if d1 <= w4 {
        return None;
    }
    let inode = match inode {
        Some(v) => v,
        None => {
            return None;
        },
    };
    let w5 = ws_run(line, d1);
    let mut rest: Vec<u8> = Vec::new();
    let mut k: usize = w5;
    while k < line.len()
        invariant
            w5 <= k <= line@.len(),
            rest@.len() == k - w5,
            forall|j: int| 0 <= j < rest@.len() ==> rest@[j] == line@[w5 + j],
        decreases line@.len() - k,
    {
        rest.push(line[k]);
        k = k + 1;
    }
    proof {
        assert(rest@ =~= line@.subrange(w5 as int, line@.len() as int));
    }
    let path: Option<String> = if rest.len() > 0 {
        path_from_utf8(rest)
    } else {
        None
    };
    Some(
        MemoryMap {
            base,
            end,
            flags,
            is_shared: shared,
            offset: off,
            major_device: major as u8,
            minor_device: minor as u8,
            inode: inode as u32,
            path,
        },
    )
}

/// Whether an exec map mirrors a parsed tuple.
pub open spec fn map_matches(
    m: MemoryMap,
    t: (u64, u64, u32, bool, u64, u8, u8, u32, Option<Seq<char>>),
) -> bool {
    &&& m.base == t.0
    &&& m.end == t.1
    &&& m.flags == t.2
    &&& m.is_shared == t.3
    &&& m.offset == t.4
    &&& m.major_device == t.5
    &&& m.minor_device == t.6
    &&& m.inode == t.7
    &&& (match (m.path, t.8) {
        (Some(p), Some(q)) => p@ == q,
        (None, None) => true,
        _ => false,
    })
}

/// What a whole listing parses to: every line must parse, in order.
pub open spec fn spec_parse_maps(lines: Seq<Seq<u8>>, i: int) -> Option<
    Seq<(u64, u64, u32, bool, u64, u8, u8, u32, Option<Seq<char>>)>,
>
    decreases lines.len() - i,
{
    if i < 0 || i >= lines.len() {
        Some(Seq::empty())
    } else {
        match spec_parse_line(lines[i]) {
            None => None,
            Some(t) => match spec_parse_maps(lines, i + 1) {
                Some(rest) => Some(seq![t] + rest),
                None => None,
            },
        }
    }
}

/// Decompose a whole mapping listing, one line per entry. Nothing as
/// soon as one line is malformed.
pub fn parse_maps(lines: &Vec<Vec<u8>>) -> (r: Option<Vec<MemoryMap>>)
    ensures
        match spec_parse_maps(lines.deep_view(), 0) {
            Some(s) => r is Some && ({
                let v = r.unwrap();
                v@.len() == s.len() && forall|i: int|
                    0 <= i < s.len() ==> map_matches(#[trigger] v@[i], s[i])
            }),
            None => r is None,
        },
{
    let ghost lv = lines.deep_view();
    let mut out: Vec<MemoryMap> = Vec::new();
    let ghost mut built: Seq<(u64, u64, u32, bool, u64, u8, u8, u32, Option<Seq<char>>)> =
        Seq::empty();
    let mut i: usize = 0;
    loop
        invariant
            i <= lines@.len(),
            lv == lines.deep_view(),
            lv.len() == lines@.len(),
            forall|j: int| 0 <= j < lines@.len() ==> lv[j] == (#[trigger] lines@[j])@,
            out@.len() == built.len(),
            forall|j: int| 0 <= j < built.len() ==> map_matches(#[trigger] out@[j], built[j]),
            spec_parse_maps(lv, 0) == (match spec_parse_maps(lv, i as int) {
                Some(rest) => Some(built + rest),
                None => None::<Seq<(u64, u64, u32, bool, u64, u8, u8, u32, Option<Seq<char>>)>>,
            }),
        decreases lines@.len() - i,
    {
        if i >= lines.len() {
            proof {
                assert(built + Seq::<
                    (u64, u64, u32, bool, u64, u8, u8, u32, Option<Seq<char>>),
                >::empty() =~= built);
            }
            return Some(out);
        }
        let m = match parse_line(lines[i].as_slice()) {
            Some(m) => m,
            None => {
                return None;
            },
        };
        proof {
            let t = spec_parse_line(lv[i as int]).unwrap();
            match spec_parse_maps(lv, i as int + 1) {
                Some(rest) => {
                    assert(built + (seq![t] + rest) =~= built.push(t) + rest);
                },
                None => {},
            }
            built = built.push(t);
        }
        out.push(m);
        i = i + 1;
    }
}

/// The first mapping that contains `address`, by the half-open rule
/// `base <= address < end`.
pub fn from_address(maps: &Vec<MemoryMap>, address: u64) -> (r: Option<&MemoryMap>)
    ensures
        match r {
            Some(m) => exists|i: int|
                0 <= i < maps@.len() && *m == maps@[i] && maps@[i].base <= address < maps@[i].end
                    && (forall|j: int|
                    0 <= j < i ==> !((#[trigger] maps@[j]).base <= address < maps@[j].end)),
            None => forall|i: int|
                0 <= i < maps@.len() ==> !((#[trigger] maps@[i]).base <= address < maps@[i].end),
        },
{
    let mut i: usize = 0;
    loop
        invariant
            i <= maps@.len(),
            forall|j: int|
                0 <= j < i ==> !((#[trigger] maps@[j]).base <= address < maps@[j].end),
        decreases maps@.len() - i,
    {
        if i >= maps.len() {
            return None;
        }
        let m = &maps[i];
        if m.base <= address && address < m.end {
            return Some(m);
        }
        i = i + 1;
    }
}

/// The first mapping whose path equals `path`; mappings without a path
/// never match.
pub fn from_path<'a>(maps: &'a Vec<MemoryMap>, path: &String) -> (r: Option<&'a MemoryMap>)
    ensures
        match r {
            Some(m) => exists|i: int|
                0 <= i < maps@.len() && *m == maps@[i] && (match maps@[i].path {
                    Some(p) => p@ == path@,
                    None => false,
                }),
            None => forall|i: int|
                0 <= i < maps@.len() ==> (match (#[trigger] maps@[i]).path {
                    Some(p) => p@ != path@,
                    None => true,
                }),
        },
{
    let mut i: usize = 0;
    loop
        invariant
            i <= maps@.len(),
            forall|j: int|
                0 <= j < i ==> (match (#[trigger] maps@[j]).path {
                    Some(p) => p@ != path@,
                    None => true,
                }),
        decreases maps@.len() - i,
    {
        if i >= maps.len() {
            return None;
        }
        let m = &maps[i];
        match &m.path {
            Some(p) => {
                if p.eq(path) {
                    return Some(m);
                }
            },
            None => (),
        }
        i = i + 1;
    }
}

} // verus!
