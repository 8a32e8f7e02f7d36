//! Resolution of a request path against a static-file route: percent
//! decoding, the traversal defense, and the ordered list of filesystem
//! candidates. Everything here works on path bytes; reading the chosen
//! file is the caller's.

use vstd::prelude::*;

verus! {

/// Why a static request was refused.
#[derive(Clone, Copy, Debug, PartialEq, Eq, Structural)]
pub enum StaticError {
    /// The decoded path holds a `..` segment, a NUL byte, or a
    /// backslash-escaped `..`.
    Forbidden,
    /// The decoded path is not valid text.
    Decode,
    /// No candidate file exists.
    NotFound,
    /// The chosen file could not be read.
    Read,
}

impl StaticError {
    /// The HTTP status such a refusal answers with.
    pub fn status(&self) -> (r: u16)
        ensures
            r == match self {
                StaticError::Forbidden => 403u16,
                StaticError::Decode => 400u16,
                StaticError::NotFound => 404u16,
                StaticError::Read => 500u16,
            },
    {
        match self {
            StaticError::Forbidden => 403,
            StaticError::Decode => 400,
            StaticError::NotFound => 404,
            StaticError::Read => 500,
        }
    }
}

/// The value of an ASCII hex digit, or 16 for any other byte.
pub open spec fn spec_hex_val(b: u8) -> nat {
    if 48 <= b <= 57 {
        (b - 48) as nat
    } else if 65 <= b <= 70 {
        (b - 55) as nat
    } else if 97 <= b <= 102 {
        (b - 87) as nat
    } else {
        16
    }
}

pub open spec fn spec_is_hex(b: u8) -> bool {
    spec_hex_val(b) < 16
}

/// Percent decoding: each `%XX` with two hex digits becomes one byte;
/// anything else, a stray `%` included, passes through unchanged.
pub open spec fn spec_pct_decode(s: Seq<u8>) -> Seq<u8>
    decreases s.len(),
{
    if s.len() == 0 {
        Seq::empty()
    } else if s[0] == 37 && s.len() >= 3 && spec_is_hex(s[1]) && spec_is_hex(s[2]) {
        seq![(spec_hex_val(s[1]) * 16 + spec_hex_val(s[2])) as u8] + spec_pct_decode(
            s.subrange(3, s.len() as int),
        )
    } else {
        seq![s[0]] + spec_pct_decode(s.subrange(1, s.len() as int))
    }
}

fn hex_val(b: u8) -> (r: u8)
    ensures
        r as nat == spec_hex_val(b),
{
    if 48 <= b && b <= 57 {
        b - 48
    } else if 65 <= b && b <= 70 {
        b - 55
    } else if 97 <= b && b <= 102 {
        b - 87
    } else {
        16
    }
}

/// Percent-decode `s`.
pub fn pct_decode(s: &[u8]) -> (r: Vec<u8>)
    ensures
        r@ == spec_pct_decode(s@),
{
    let mut out: Vec<u8> = Vec::new();
    let mut i: usize = 0;
    proof {
        assert(s@.subrange(0, s@.len() as int) =~= s@);
        assert(out@ + spec_pct_decode(s@) =~= spec_pct_decode(s@));
    }
    while i < s.len()
        invariant
            0 <= i <= s@.len(),
            spec_pct_decode(s@) == out@ + spec_pct_decode(s@.subrange(i as int, s@.len() as int)),
        decreases s@.len() - i,
    {
        let ghost rest = s@.subrange(i as int, s@.len() as int);
        if s[i] == 37 && s.len() - i >= 3 && hex_val(s[i + 1]) < 16 && hex_val(s[i + 2]) < 16 {
            let v: u8 = hex_val(s[i + 1]) * 16 + hex_val(s[i + 2]);
            out.push(v);
            proof {
                assert(rest[0] == 37 && rest.len() >= 3 && spec_is_hex(rest[1]) && spec_is_hex(
                    rest[2],
                ));
                assert(rest.subrange(3, rest.len() as int) =~= s@.subrange(
                    i + 3,
                    s@.len() as int,
                ));
                assert(out@ + spec_pct_decode(s@.subrange(i + 3, s@.len() as int))
                    == spec_pct_decode(s@));
            }
            i = i + 3;
        } else {
            out.push(s[i]);
            proof {
                assert(!(rest[0] == 37 && rest.len() >= 3 && spec_is_hex(rest[1]) && spec_is_hex(
                    rest[2],
                )));
                assert(rest.subrange(1, rest.len() as int) =~= s@.subrange(
                    i + 1,
                    s@.len() as int,
                ));
                assert(out@ + spec_pct_decode(s@.subrange(i + 1, s@.len() as int))
                    == spec_pct_decode(s@));
            }
            i = i + 1;
        }
    }
    proof {
        assert(s@.subrange(s@.len() as int, s@.len() as int) =~= Seq::<u8>::empty());
    }
    out
}

/// Split on `/`, every byte going to a segment; `n` separators give
/// `n + 1` segments, empty ones included.
pub open spec fn spec_split_slash(s: Seq<u8>) -> Seq<Seq<u8>>
    decreases s.len(),
{
    if s.len() == 0 {
        seq![Seq::empty()]
    } else if s.last() == 47 {
        spec_split_slash(s.drop_last()).push(Seq::empty())
    } else {
        let p = spec_split_slash(s.drop_last());
        p.update(p.len() - 1, p.last().push(s.last()))
    }
}

pub proof fn lemma_split_slash_len(s: Seq<u8>)
    ensures
        spec_split_slash(s).len() >= 1,
    decreases s.len(),
{
    if s.len() > 0 {
        lemma_split_slash_len(s.drop_last());
    }
}

/// A backslash-escaped `..` stands at `i`: the three bytes there are
/// `\..` or `..\`, the forms that traverse under backslash path
/// semantics once the joined bytes reach a filesystem.
pub open spec fn spec_bs_dotdot_at(seg: Seq<u8>, i: int) -> bool {
    &&& 0 <= i
    &&& i + 3 <= seg.len()
    &&& ((seg[i] == 92 && seg[i + 1] == 46 && seg[i + 2] == 46) || (seg[i] == 46 && seg[i + 1]
        == 46 && seg[i + 2] == 92))
}

/// A segment the resolver refuses: `..`, one holding a NUL byte, or one
/// holding a backslash-escaped `..`.
pub open spec fn spec_seg_forbidden(seg: Seq<u8>) -> bool {
    ||| (seg.len() == 2 && seg[0] == 46 && seg[1] == 46)
    ||| seg.contains(0)
    ||| exists|i: int| spec_bs_dotdot_at(seg, i)
}

/// A segment that contributes to the candidate path: non-empty and not `.`.
pub open spec fn spec_seg_kept(seg: Seq<u8>) -> bool {
    seg.len() > 0 && !(seg.len() == 1 && seg[0] == 46)
}

pub open spec fn spec_any_forbidden(segs: Seq<Seq<u8>>) -> bool {
    exists|j: int| 0 <= j < segs.len() && spec_seg_forbidden(segs[j])
}

/// The kept segments, in order.
pub open spec fn spec_kept_segs(segs: Seq<Seq<u8>>) -> Seq<Seq<u8>>
    decreases segs.len(),
{
    if segs.len() == 0 {
        Seq::empty()
    } else {
        let p = spec_kept_segs(segs.drop_last());
        if spec_seg_kept(segs.last()) {
            p.push(segs.last())
        } else {
            p
        }
    }
}

/// What the resolver makes of a decoded path: refusal when any segment is
/// forbidden, else the kept segments.
pub open spec fn spec_safe_segments(decoded: Seq<u8>) -> Result<Seq<Seq<u8>>, StaticError> {
    if spec_any_forbidden(spec_split_slash(decoded)) {
        Err(StaticError::Forbidden)
    } else {
        Ok(spec_kept_segs(spec_split_slash(decoded)))
    }
}

fn split_slash(s: &[u8]) -> (r: Vec<Vec<u8>>)
    ensures
        r.deep_view() == spec_split_slash(s@),
{
    broadcast use lemma_bytes_deep_view;

    let mut done: Vec<Vec<u8>> = Vec::new();
    let mut cur: Vec<u8> = Vec::new();
    let mut i: usize = 0;
    while i < s.len()
        invariant
            0 <= i <= s@.len(),
            done.deep_view().push(cur@) =~= spec_split_slash(s@.subrange(0, i as int)),
        decreases s@.len() - i,
    {
        broadcast use lemma_bytes_deep_view;

        let ghost prefix = s@.subrange(0, i as int);
        let ghost next = s@.subrange(0, i as int + 1);
        let ghost dv = done.deep_view();
        let ghost cv = cur@;
        proof {
            assert(next.drop_last() =~= prefix);
            assert(next.last() == s@[i as int]);
        }
        if s[i] == 47 {
            done.push(cur);
            cur = Vec::new();
            proof {
                assert(done.deep_view() =~= dv.push(cv));
                assert(done.deep_view().push(cur@) =~= spec_split_slash(next));
            }
        } else {
            cur.push(s[i]);
            proof {
                let p = spec_split_slash(prefix);
                assert(p.len() >= 1) by {
                    lemma_split_slash_len(prefix);
                }
                assert(p == dv.push(cv));
                assert(p.last() == cv);
                assert(p.update(p.len() - 1, cv.push(s@[i as int])) =~= dv.push(cv.push(
                    s@[i as int],
                )));
                assert(done.deep_view().push(cur@) =~= dv.push(cv.push(s@[i as int])));
            }
        }
        i = i + 1;
    }
    let ghost dv = done.deep_view();
    let ghost cv = cur@;
    done.push(cur);
    proof {
        assert(done.deep_view() =~= dv.push(cv));
        assert(s@.subrange(0, s@.len() as int) =~= s@);
    }
    done
}

fn seg_is_forbidden(seg: &Vec<u8>) -> (r: bool)
    ensures
        r == spec_seg_forbidden(seg@),
{
    if seg.len() == 2 && seg[0] == 46 && seg[1] == 46 {
        return true;
    }
    let mut i: usize = 0;
    while i < seg.len()
        invariant
            0 <= i <= seg@.len(),
            forall|j: int| 0 <= j < i ==> seg@[j] != 0,
            forall|j: int| 0 <= j < i ==> !spec_bs_dotdot_at(seg@, j),
        decreases seg@.len() - i,
    {
        if seg[i] == 0 {
            return true;
        }
        if seg.len() - i >= 3 {
            let a = seg[i];
            let b = seg[i + 1];
            let c = seg[i + 2];
            if (a == 92 && b == 46 && c == 46) || (a == 46 && b == 46 && c == 92) {
                proof {
                    assert(spec_bs_dotdot_at(seg@, i as int));
                }
                return true;
            }
        }
        i = i + 1;
    }
    proof {
        if seg@.contains(0) {
            let w = choose|j: int| 0 <= j < seg@.len() && seg@[j] == 0;
        }
        if exists|j: int| spec_bs_dotdot_at(seg@, j) {
            let w = choose|j: int| spec_bs_dotdot_at(seg@, j);
            assert(!spec_bs_dotdot_at(seg@, w));
        }
    }
    false
}

fn seg_is_kept(seg: &Vec<u8>) -> (r: bool)
    ensures
        r == spec_seg_kept(seg@),
{
    seg.len() > 0 && !(seg.len() == 1 && seg[0] == 46)
}

/// A byte vector's deep view is its view.
pub broadcast proof fn lemma_bytes_deep_view(v: Vec<u8>)
    ensures
        #[trigger] v.deep_view() == v@,
{
    assert(v.deep_view() =~= v@);
}

fn copy_bytes(v: &Vec<u8>) -> (r: Vec<u8>)
    ensures
        r@ == v@,
{
    let mut out: Vec<u8> = Vec::new();
    let mut i: usize = 0;
    while i < v.len()
        invariant
            0 <= i <= v@.len(),
            out@ =~= v@.subrange(0, i as int),
        decreases v@.len() - i,
    {
        out.push(v[i]);
        proof {
            assert(out@ =~= v@.subrange(0, i as int + 1));
        }
        i = i + 1;
    }
    proof {
        assert(v@.subrange(0, v@.len() as int) =~= v@);
    }
    out
}

/// The traversal defense. Percent-decodes the raw request path, splits it
/// on `/`, and refuses it whenever any segment is `..`, holds a NUL byte,
/// or holds a backslash-escaped `..`; otherwise hands back the kept
/// segments, none of which is forbidden, so a path built from the route's
/// root and these segments never leaves the root.
pub fn safe_segments(raw_path: &[u8]) -> (r: Result<Vec<Vec<u8>>, StaticError>)
    ensures
        match r {
            Ok(segs) => {
                &&& spec_safe_segments(spec_pct_decode(raw_path@)) == Ok::<_, StaticError>(
                    segs.deep_view(),
                )
                &&& forall|j: int|
                    0 <= j < segs.deep_view().len() ==> !spec_seg_forbidden(
                        #[trigger] segs.deep_view()[j],
                    ) && spec_seg_kept(segs.deep_view()[j])
            },
            Err(e) => {
                &&& e == StaticError::Forbidden
                &&& spec_safe_segments(spec_pct_decode(raw_path@)) == Err::<Seq<Seq<u8>>, _>(
                    StaticError::Forbidden,
                )
            },
        },
{
    let decoded = pct_decode(raw_path);
    let segs = split_slash(decoded.as_slice());
    let ghost all = spec_split_slash(spec_pct_decode(raw_path@));
    let mut out: Vec<Vec<u8>> = Vec::new();
    let mut k: usize = 0;
    while k < segs.len()
        invariant
            all == spec_split_slash(spec_pct_decode(raw_path@)),
            segs.deep_view() == all,
            0 <= k <= segs@.len(),
            forall|j: int| 0 <= j < k ==> !spec_seg_forbidden(#[trigger] all[j]),
            out.deep_view() =~= spec_kept_segs(all.subrange(0, k as int)),
            forall|j: int|
                0 <= j < out.deep_view().len() ==> !spec_seg_forbidden(
                    #[trigger] out.deep_view()[j],
                ) && spec_seg_kept(out.deep_view()[j]),
        decreases segs@.len() - k,
    {
        broadcast use lemma_bytes_deep_view;

        proof {
            assert(all.subrange(0, k as int + 1).drop_last() =~= all.subrange(0, k as int));
            assert(all.subrange(0, k as int + 1).last() == all[k as int]);
            assert(all[k as int] == segs@[k as int].deep_view());
        }
        if seg_is_forbidden(&segs[k]) {
            proof {
                assert(spec_seg_forbidden(all[k as int]));
                assert(spec_any_forbidden(all));
            }
            return Err(StaticError::Forbidden);
        }
        let ghost dv = out.deep_view();
        if seg_is_kept(&segs[k]) {
            let c = copy_bytes(&segs[k]);
            let ghost cv = c@;
            out.push(c);
            proof {
                assert(cv == all[k as int]);
                assert(out.deep_view() =~= dv.push(cv));
                assert(out.deep_view() =~= spec_kept_segs(all.subrange(0, k as int)).push(
                    all[k as int],
                ));
            }
        }
        k = k + 1;
    }
    proof {
        assert(all.subrange(0, all.len() as int) =~= all);
        if spec_any_forbidden(all) {
            let w = choose|j: int| 0 <= j < all.len() && spec_seg_forbidden(all[j]);
            assert(!spec_seg_forbidden(all[w]));
        }
    }
    Ok(out)
}

/// Traversal safety: whenever the decoded request path holds a `..`
/// segment, a NUL byte, or a backslash-escaped `..` anywhere, resolution
/// refuses it outright, and whenever it is accepted every kept segment is
/// free of all three, so the candidate paths built from the root and
/// these segments stay under the root.
pub proof fn lemma_traversal_safety(raw_path: Seq<u8>)
    ensures
        spec_any_forbidden(spec_split_slash(spec_pct_decode(raw_path))) ==> spec_safe_segments(
            spec_pct_decode(raw_path),
        ) == Err::<Seq<Seq<u8>>, StaticError>(StaticError::Forbidden),
        !spec_any_forbidden(spec_split_slash(spec_pct_decode(raw_path))) ==> match spec_safe_segments(
            spec_pct_decode(raw_path),
        ) {
            Ok(segs) => forall|j: int| 0 <= j < segs.len() ==> !spec_seg_forbidden(#[trigger] segs[j]),
            Err(_) => false,
        },
{
    let split = spec_split_slash(spec_pct_decode(raw_path));
    if !spec_any_forbidden(split) {
        lemma_kept_segs_preserve(split);
    }
}

proof fn lemma_kept_segs_preserve(segs: Seq<Seq<u8>>)
    requires
        !spec_any_forbidden(segs),
    ensures
        forall|j: int|
            0 <= j < spec_kept_segs(segs).len() ==> !spec_seg_forbidden(
                #[trigger] spec_kept_segs(segs)[j],
            ),
    decreases segs.len(),
{
    if segs.len() > 0 {
        assert(!spec_any_forbidden(segs.drop_last())) by {
            if spec_any_forbidden(segs.drop_last()) {
                let w = choose|j: int|
                    0 <= j < segs.drop_last().len() && spec_seg_forbidden(segs.drop_last()[j]);
                assert(spec_seg_forbidden(segs[w]));
            }
        }
        lemma_kept_segs_preserve(segs.drop_last());
        assert(!spec_seg_forbidden(segs.last())) by {
            if spec_seg_forbidden(segs.last()) {
                assert(spec_seg_forbidden(segs[segs.len() - 1]));
            }
        }
        let p = spec_kept_segs(segs.drop_last());
        if spec_seg_kept(segs.last()) {
            assert(spec_kept_segs(segs) == p.push(segs.last()));
            assert forall|j: int|
                0 <= j < spec_kept_segs(segs).len() implies !spec_seg_forbidden(
                #[trigger] spec_kept_segs(segs)[j]) by {
                if j < p.len() {
                    assert(spec_kept_segs(segs)[j] == p[j]);
                } else {
                    assert(spec_kept_segs(segs)[j] == segs.last());
                }
            }
        } else {
            assert(spec_kept_segs(segs) == p);
        }
    }
}

/// `root` followed by each segment behind a `/` separator, as the
/// filesystem path of the candidate file.
pub open spec fn spec_joined(root: Seq<u8>, segs: Seq<Seq<u8>>) -> Seq<u8>
    decreases segs.len(),
{
    if segs.len() == 0 {
        root
    } else {
        spec_joined(root, segs.drop_last()) + seq![47u8] + segs.last()
    }
}

/// Build the candidate path for `segs` under `root`.
pub fn join_under_root(root: &[u8], segs: &Vec<Vec<u8>>) -> (r: Vec<u8>)
    ensures
        r@ == spec_joined(root@, segs.deep_view()),
{
    let mut out: Vec<u8> = Vec::new();
    out.extend_from_slice(root);
    let mut k: usize = 0;
    while k < segs.len()
        invariant
            0 <= k <= segs@.len(),
            out@ =~= spec_joined(root@, segs.deep_view().subrange(0, k as int)),
        decreases segs@.len() - k,
    {
        let ghost before = segs.deep_view().subrange(0, k as int);
        let ghost after = segs.deep_view().subrange(0, k as int + 1);
        out.push(47);
        out.extend_from_slice(segs[k].as_slice());
        proof {
            assert(after.drop_last() =~= before);
            assert(after.last() == segs.deep_view()[k as int]);
            assert(out@ =~= spec_joined(root@, after));
        }
        k = k + 1;
    }
    proof {
        assert(segs.deep_view().subrange(0, segs.deep_view().len() as int) =~= segs.deep_view());
    }
    out
}

/// `dir` and `name` joined by a `/`.
pub fn join_path(dir: &Vec<u8>, name: &[u8]) -> (r: Vec<u8>)
    ensures
        r@ == dir@ + seq![47u8] + name@,
{
    let mut out: Vec<u8> = Vec::new();
    out.extend_from_slice(dir.as_slice());
    out.push(47);
    out.extend_from_slice(name);
    proof {
        assert(out@ =~= dir@ + seq![47u8] + name@);
    }
    out
}

/// The index files to try inside a directory candidate: each entry of
/// `index` under the candidate, in order.
pub fn index_candidates(candidate: &Vec<u8>, index: &Vec<Vec<u8>>) -> (r: Vec<Vec<u8>>)
    ensures
        r.deep_view().len() == index.deep_view().len(),
        forall|j: int|
            0 <= j < index.deep_view().len() ==> #[trigger] r.deep_view()[j] == candidate@ + seq![
                47u8,
            ] + index.deep_view()[j],
{
    let mut out: Vec<Vec<u8>> = Vec::new();
    let mut k: usize = 0;
    while k < index.len()
        invariant
            0 <= k <= index@.len(),
            out@.len() == k,
            forall|j: int|
                0 <= j < k ==> #[trigger] out.deep_view()[j] == candidate@ + seq![47u8]
                    + index.deep_view()[j],
        decreases index@.len() - k,
    {
        broadcast use lemma_bytes_deep_view;

        let c = join_path(candidate, index[k].as_slice());
        let ghost cv = c@;
        let ghost dv = out.deep_view();
        out.push(c);
        proof {
            assert(out.deep_view() =~= dv.push(cv));
        }
        k = k + 1;
    }
    out
}

/// The fallback files to try when the candidate is missing: an entry that
/// begins with `/` resolves against the root with that leading `/`
/// dropped, any other against the candidate's parent directory.
pub fn try_file_candidates(
    root: &[u8],
    parent: &Vec<u8>,
    try_files: &Vec<Vec<u8>>,
) -> (r: Vec<Vec<u8>>)
    ensures
        r.deep_view().len() == try_files.deep_view().len(),
        forall|j: int|
            0 <= j < try_files.deep_view().len() ==> #[trigger] r.deep_view()[j] == {
                let t = try_files.deep_view()[j];
                if t.len() > 0 && t[0] == 47 {
                    root@ + seq![47u8] + t.subrange(1, t.len() as int)
                } else {
                    parent@ + seq![47u8] + t
                }
            },
{
    let mut out: Vec<Vec<u8>> = Vec::new();
    let mut k: usize = 0;
    while k < try_files.len()
        invariant
            0 <= k <= try_files@.len(),
            out@.len() == k,
            forall|j: int|
                0 <= j < k ==> #[trigger] out.deep_view()[j] == {
                    let t = try_files.deep_view()[j];
                    if t.len() > 0 && t[0] == 47 {
                        root@ + seq![47u8] + t.subrange(1, t.len() as int)
                    } else {
                        parent@ + seq![47u8] + t
                    }
                },
        decreases try_files@.len() - k,
    {
        broadcast use lemma_bytes_deep_view;

        let t = &try_files[k];
        let ghost dv = out.deep_view();
        if t.len() > 0 && t[0] == 47 {
            let mut path: Vec<u8> = Vec::new();
            path.extend_from_slice(root);
            path.push(47);
            proof {
                assert(path@ =~= root@ + seq![47u8] + t@.subrange(1, 1));
            }
            let mut m: usize = 1;
            while m < t.len()
                invariant
                    1 <= m <= t@.len(),
                    path@ =~= root@ + seq![47u8] + t@.subrange(1, m as int),
                decreases t@.len() - m,
            {
                path.push(t[m]);
                proof {
                    assert(t@.subrange(1, m as int + 1) =~= t@.subrange(1, m as int).push(
                        t@[m as int],
                    ));
                    assert(path@ =~= root@ + seq![47u8] + t@.subrange(1, m as int + 1));
                }
                m = m + 1;
            }
            let ghost pv = path@;
            out.push(path);
            proof {
                assert(out.deep_view() =~= dv.push(pv));
            }
        } else {
            let c = join_path(parent, t.as_slice());
            let ghost cv = c@;
            out.push(c);
            proof {
                assert(out.deep_view() =~= dv.push(cv));
            }
        }
        k = k + 1;
    }
    out
}

/// The first candidate marked present, if any. The caller supplies, in
/// `present`, whether each candidate names an existing regular file.
pub fn pick_first(candidates: &Vec<Vec<u8>>, present: &Vec<bool>) -> (r: Option<usize>)
    requires
        candidates@.len() == present@.len(),
    ensures
        match r {
            Some(i) => i < candidates@.len() && present@[i as int] && forall|j: int|
                0 <= j < i ==> !present@[j],
            None => forall|j: int| 0 <= j < present@.len() ==> !present@[j],
        },
{
    let mut i: usize = 0;
    while i < present.len()
        invariant
            candidates@.len() == present@.len(),
            0 <= i <= present@.len(),
            forall|j: int| 0 <= j < i ==> !present@[j],
        decreases present@.len() - i,
    {
        if present[i] {
            return Some(i);
        }
        i = i + 1;
    }
    None
}

} // verus!
