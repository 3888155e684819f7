//! Editing of the loader's library-search-path list: a single byte string
//! of paths separated by colons. Adding a path appends it as a new
//! element; removing one drops the first element equal to it and joins
//! the rest back. Reading and writing the live list is the embedder's
//! business; this module owns the list arithmetic.

use vstd::prelude::*;

verus! {

/// The list separator, `:`.
pub const PATH_SEP: u8 = 58;

/// End of the element starting at `i`: the first separator at or after
/// it, or the end of the string.
pub open spec fn spec_tok_end(s: Seq<u8>, i: int) -> int
    decreases s.len() - i,
{
    if i < 0 || i >= s.len() {
        if i < 0 {
            i
        } else {
            s.len() as int
        }
    } else if s[i] == PATH_SEP {
        i
    } else {
        spec_tok_end(s, i + 1)
    }
}

/// The elements of the list's suffix starting at `i`. An empty string is
/// one empty element; a trailing separator ends with one.
pub open spec fn spec_split_from(s: Seq<u8>, i: int) -> Seq<Seq<u8>>
    decreases s.len() - i,
{
    if i < 0 || i > s.len() {
        Seq::empty()
    } else {
        let j = spec_tok_end(s, i);
        if j < i {
            Seq::empty()
        } else if j >= s.len() {
            seq![s.subrange(i, s.len() as int)]
        } else {
            seq![s.subrange(i, j)] + spec_split_from(s, j + 1)
        }
    }
}

/// The separator-joined rendering of the elements from `i` on, each
/// preceded by a separator.
pub open spec fn spec_join_rest(ts: Seq<Seq<u8>>, i: int) -> Seq<u8>
    decreases ts.len() - i,
{
    if i < 0 || i >= ts.len() {
        Seq::empty()
    } else {
        seq![PATH_SEP] + ts[i] + spec_join_rest(ts, i + 1)
    }
}

/// The separator-joined rendering of a whole element list.
pub open spec fn spec_join(ts: Seq<Seq<u8>>) -> Seq<u8> {
    if ts.len() == 0 {
        Seq::empty()
    } else {
        ts[0] + spec_join_rest(ts, 1)
    }
}

fn tok_end(s: &[u8], i: usize) -> (r: usize)
    requires
        i <= s@.len(),
    ensures
        r == spec_tok_end(s@, i as int),
        i <= r <= s@.len(),
{
    let mut k: usize = i;
    loop
        invariant
            i <= k <= s@.len(),
            spec_tok_end(s@, i as int) == spec_tok_end(s@, k as int),
        decreases s@.len() - k,
    {
        if k >= s.len() {
            return k;
        }
        if s[k] == PATH_SEP {
            return k;
        }
        k = k + 1;
    }
}

/// Split a path list into its elements.
pub fn split_paths(s: &[u8]) -> (r: Vec<Vec<u8>>)
    ensures
        r.deep_view() == spec_split_from(s@, 0),
{
    let mut out: Vec<Vec<u8>> = Vec::new();
    let mut i: usize = 0;
    loop
        invariant
            i <= s@.len(),
            spec_split_from(s@, 0) == out.deep_view() + spec_split_from(s@, i as int),
        decreases s@.len() - i,
    {
        let j = tok_end(s, i);
        let mut tok: Vec<u8> = Vec::new();
        let mut k: usize = i;
        while k < j
            invariant
                i <= k <= j <= s@.len(),
                tok@.len() == k - i,
                forall|m: int| 0 <= m < tok@.len() ==> tok@[m] == s@[i + m],
            decreases j - k,
        {
            tok.push(s[k]);
            k = k + 1;
        }
        proof {
            assert(tok@ =~= s@.subrange(i as int, j as int));
        }
        let ghost pre = out.deep_view();
        out.push(tok);
        proof {
            assert(out.deep_view() =~~= pre.push(s@.subrange(i as int, j as int)));
        }
        if j >= s.len() {
            proof {
                assert(s@.subrange(i as int, j as int) =~= s@.subrange(i as int, s@.len() as int));
                assert(pre + seq![s@.subrange(i as int, s@.len() as int)] =~~= out.deep_view());
            }
            return out;
        }
        proof {
            assert(pre + (seq![s@.subrange(i as int, j as int)] + spec_split_from(
                s@,
                j as int + 1,
            )) =~~= out.deep_view() + spec_split_from(s@, j as int + 1));
        }
        i = j + 1;
    }
}

/// Join elements back into one separator-delimited list.
pub fn join_paths(ts: &Vec<Vec<u8>>) -> (r: Vec<u8>)
    ensures
        r@ == spec_join(ts.deep_view()),
{
    let mut out: Vec<u8> = Vec::new();
    if ts.len() == 0 {
        proof {
            assert(out@ =~= spec_join(ts.deep_view()));
        }
        return out;
    }
    let mut k: usize = 0;
    while k < ts[0].len()
        invariant
            ts@.len() > 0,
            k <= ts@[0]@.len(),
            out@.len() == k,
            forall|m: int| 0 <= m < out@.len() ==> out@[m] == ts@[0]@[m],
        decreases ts@[0]@.len() - k,
    {
        out.push(ts[0][k]);
        k = k + 1;
    }
    proof {
        assert(out@ =~= ts.deep_view()[0]);
    }
    let mut i: usize = 1;
    loop
        invariant
            1 <= i <= ts@.len(),
            spec_join(ts.deep_view()) == out@ + spec_join_rest(ts.deep_view(), i as int),
        decreases ts@.len() - i,
    {
        if i >= ts.len() {
            proof {
                assert(out@ + Seq::<u8>::empty() =~= out@);
            }
            return out;
        }
        out.push(PATH_SEP);
        let mut k2: usize = 0;
        let ghost mid = out@;
        while k2 < ts[i].len()
            invariant
                i < ts@.len(),
                k2 <= ts@[i as int]@.len(),
                out@.len() == mid.len() + k2,
                out@.subrange(0, mid.len() as int) =~= mid,
                forall|m: int|
                    0 <= m < k2 ==> out@[mid.len() + m] == ts@[i as int]@[m],
            decreases ts@[i as int]@.len() - k2,
        {
            out.push(ts[i][k2]);
            k2 = k2 + 1;
        }
        proof {
            let tv = ts.deep_view();
            assert(out@ =~= mid + tv[i as int]);
            assert(spec_join(tv) == (mid.drop_last()) + (seq![PATH_SEP] + tv[i as int]
                + spec_join_rest(tv, i as int + 1)));
            assert((mid.drop_last()) + (seq![PATH_SEP] + tv[i as int] + spec_join_rest(
                tv,
                i as int + 1,
            )) =~= out@ + spec_join_rest(tv, i as int + 1));
        }
        i = i + 1;
    }
}

fn bytes_equal(a: &[u8], b: &[u8]) -> (r: bool)
    ensures
        r == (a@ == b@),
{
    if a.len() != b.len() {
        proof {
            assert(a@.len() != b@.len());
        }
        return false;
    }
    let mut k: usize = 0;
    while k < a.len()
        invariant
            k <= a@.len(),
            a@.len() == b@.len(),
            forall|m: int| 0 <= m < k ==> a@[m] == b@[m],
        decreases a@.len() - k,
    {
        if a[k] != b[k] {
            return false;
        }
        k = k + 1;
    }
    proof {
        assert(a@ =~= b@);
    }
    true
}

/// Append `path` as a new element of the list `paths`. Splitting, pushing
/// the new element and joining collapses to appending a separator and the
/// path, which is what this states.
pub fn add_linker_path(paths: &[u8], path: &[u8]) -> (r: Vec<u8>)
    ensures
        r@ == spec_join(spec_split_from(paths@, 0).push(path@)),
{
    let mut ts = split_paths(paths);
    let mut tok: Vec<u8> = Vec::new();
    let mut k: usize = 0;
    while k < path.len()
        invariant
            k <= path@.len(),
            tok@.len() == k,
            forall|m: int| 0 <= m < tok@.len() ==> tok@[m] == path@[m],
        decreases path@.len() - k,
    {
        tok.push(path[k]);
        k = k + 1;
    }
    proof {
        assert(tok@ =~= path@);
    }
    let ghost pre = ts.deep_view();
    ts.push(tok);
    proof {
        assert(ts.deep_view() =~~= pre.push(path@));
    }
    join_paths(&ts)
}

/// Drop the first element of the list `paths` equal to `path` and join
/// the rest; nothing when no element matches.
pub fn remove_linker_path(paths: &[u8], path: &[u8]) -> (r: Option<Vec<u8>>)
    ensures
        ({
            let ts = spec_split_from(paths@, 0);
            match r {
                Some(v) => exists|i: int|
                    0 <= i < ts.len() && ts[i] == path@ && (forall|j: int|
                        0 <= j < i ==> ts[j] != path@) && v@ == spec_join(ts.remove(i)),
                None => forall|j: int| 0 <= j < ts.len() ==> ts[j] != path@,
            }
        }),
{
    let mut ts = split_paths(paths);
    let ghost tv = ts.deep_view();
    let mut i: usize = 0;
    loop
        invariant
            i <= ts@.len(),
            tv == spec_split_from(paths@, 0),
            tv == ts.deep_view(),
            tv.len() == ts@.len(),
            forall|j: int| 0 <= j < ts@.len() ==> tv[j] == (#[trigger] ts@[j])@,
            forall|j: int| 0 <= j < i ==> tv[j] != path@,
        decreases ts@.len() - i,
    {
        if i >= ts.len() {
            return None;
        }
        if bytes_equal(ts[i].as_slice(), path) {
            proof {
                assert(tv[i as int] == path@);
            }
            ts.remove(i);
            proof {
                assert(ts.deep_view() =~~= tv.remove(i as int));
            }
            let out = join_paths(&ts);
            proof {
                assert(out@ == spec_join(tv.remove(i as int)));
                assert((i as int) < tv.len() && tv[i as int] == path@ && (forall|j: int|
                    0 <= j < i as int ==> tv[j] != path@) && out@ == spec_join(
                    tv.remove(i as int),
                ));
            }
            return Some(out);
        }
        i = i + 1;
    }
}

/// First API level that moved the linker under the runtime apex.
pub const ANDROID_API_10: u32 = 29;

/// The path of the dynamic linker's own binary for a given Bionic API
/// level and word width: newer systems keep it under the runtime apex,
/// older ones under the system binaries.
pub fn linker_path(api_level: u32, wide: bool) -> (r: &'static str)
    ensures
        api_level >= ANDROID_API_10 && wide ==> r@ == "/apex/com.android.runtime/bin/linker64"@,
        api_level >= ANDROID_API_10 && !wide ==> r@ == "/apex/com.android.runtime/bin/linker"@,
        api_level < ANDROID_API_10 && wide ==> r@ == "/system/bin/linker64"@,
        api_level < ANDROID_API_10 && !wide ==> r@ == "/system/bin/linker"@,
{
    if api_level >= ANDROID_API_10 {
        if wide {
            "/apex/com.android.runtime/bin/linker64"
        } else {
            "/apex/com.android.runtime/bin/linker"
        }
    } else {
        if wide {
            "/system/bin/linker64"
        } else {
            "/system/bin/linker"
        }
    }
}

} // verus!
