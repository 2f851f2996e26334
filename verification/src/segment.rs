//! Message segmentation: recognising mbox-style containers, splitting them
//! at envelope lines, and the cheap filter that keeps obvious non-mail files
//! out of the parse path.

use vstd::prelude::*;

verus! {

/// The 5-byte mbox envelope marker `From `.
pub open spec fn from_marker() -> Seq<u8> {
    seq![70u8, 114u8, 111u8, 109u8, 32u8]
}

/// `p` occurs at the front of `b`.
pub open spec fn starts_with_bytes(b: Seq<u8>, p: Seq<u8>) -> bool {
    p.len() <= b.len() && b.subrange(0, p.len() as int) == p
}

/// The envelope marker occurs at offset `i`.
pub open spec fn marker_at(b: Seq<u8>, i: int) -> bool {
    0 <= i && i + 5 <= b.len() && b.subrange(i, i + 5) == from_marker()
}

/// A segment boundary: the marker at the very start, or right after a LF.
pub open spec fn is_boundary(b: Seq<u8>, i: int) -> bool {
    marker_at(b, i) && (i == 0 || b[i - 1] == 10)
}

/// A blob is treated as an mbox container when the marker starts it or
/// follows a line break anywhere inside it.
pub open spec fn looks_like_mbox_spec(b: Seq<u8>) -> bool {
    marker_at(b, 0) || exists|i: int| 1 <= i && #[trigger] marker_at(b, i) && b[i - 1] == 10
}

/// All boundary offsets at or after `i`, in ascending order.
pub open spec fn boundaries_from(b: Seq<u8>, i: int) -> Seq<int>
    decreases b.len() - i,
{
    if 0 <= i && i < b.len() {
        (if is_boundary(b, i) {
            seq![i]
        } else {
            Seq::empty()
        }) + boundaries_from(b, i + 1)
    } else {
        Seq::empty()
    }
}

/// Index of the first occurrence of `x` in `b`, or `b.len()` when absent.
pub open spec fn find_byte_spec(b: Seq<u8>, x: u8) -> int
    decreases b.len(),
{
    if b.len() == 0 {
        0
    } else if b[0] == x {
        0
    } else {
        1 + find_byte_spec(b.drop_first(), x)
    }
}

/// A segment with its first line (the envelope line) removed; empty when the
/// segment has no line break at all.
pub open spec fn drop_envelope(seg: Seq<u8>) -> Seq<u8> {
    let j = find_byte_spec(seg, 10);
    if 0 <= j && j < seg.len() {
        seg.skip(j + 1)
    } else {
        Seq::empty()
    }
}

/// The non-empty de-enveloped segments between consecutive boundaries,
/// starting from the `k`-th; the last segment runs to the end of the blob.
pub open spec fn segments_from(b: Seq<u8>, st: Seq<int>, k: int) -> Seq<Seq<u8>>
    decreases st.len() - k,
{
    if 0 <= k && k < st.len() {
        let start = st[k];
        let end = if k + 1 < st.len() {
            st[k + 1]
        } else {
            b.len() as int
        };
        let piece = if 0 <= start && start <= end && end <= b.len() {
            drop_envelope(b.subrange(start, end))
        } else {
            Seq::empty()
        };
        (if piece.len() > 0 {
            seq![piece]
        } else {
            Seq::empty()
        }) + segments_from(b, st, k + 1)
    } else {
        Seq::empty()
    }
}

/// The mbox split of a blob: one message per boundary, each without its
/// envelope line; a blob with no boundary at all is passed through whole.
pub open spec fn split_mbox_spec(b: Seq<u8>) -> Seq<Seq<u8>> {
    let st = boundaries_from(b, 0);
    if st.len() == 0 {
        seq![b]
    } else {
        segments_from(b, st, 0)
    }
}

/// The RFC822 header prefixes that make a non-mbox blob worth parsing.
pub open spec fn from_colon() -> Seq<u8> {
    seq![70u8, 114u8, 111u8, 109u8, 58u8]
}

pub open spec fn return_path_colon() -> Seq<u8> {
    seq![82u8, 101u8, 116u8, 117u8, 114u8, 110u8, 45u8, 80u8, 97u8, 116u8, 104u8, 58u8]
}

pub open spec fn received_colon() -> Seq<u8> {
    seq![82u8, 101u8, 99u8, 101u8, 105u8, 118u8, 101u8, 100u8, 58u8]
}

pub open spec fn date_colon() -> Seq<u8> {
    seq![68u8, 97u8, 116u8, 101u8, 58u8]
}

pub open spec fn subject_colon() -> Seq<u8> {
    seq![83u8, 117u8, 98u8, 106u8, 101u8, 99u8, 116u8, 58u8]
}

/// A non-mbox blob is recognizable as mail when it opens with one of a
/// small set of header prefixes.
pub open spec fn recognizable_spec(b: Seq<u8>) -> bool {
    starts_with_bytes(b, from_colon()) || starts_with_bytes(b, return_path_colon())
        || starts_with_bytes(b, received_colon()) || starts_with_bytes(b, date_colon())
        || starts_with_bytes(b, subject_colon())
}

/// The full segmentation of one raw blob: blobs under 10 bytes are skipped,
/// mbox containers are split, recognizable single messages pass whole, and
/// everything else is skipped.
pub open spec fn segment_blob_spec(b: Seq<u8>) -> Seq<Seq<u8>> {
    if b.len() < 10 {
        Seq::empty()
    } else if looks_like_mbox_spec(b) {
        split_mbox_spec(b)
    } else if recognizable_spec(b) {
        seq![b]
    } else {
        Seq::empty()
    }
}

fn make_from_marker() -> (p: Vec<u8>)
    ensures
        p@ == from_marker(),
{
    let mut p: Vec<u8> = Vec::new();
    p.push(70u8);
    p.push(114u8);
    p.push(111u8);
    p.push(109u8);
    p.push(32u8);
    proof {
        assert(p@ =~= from_marker());
    }
    p
}

/// Whether the byte ranges match at offset `off`.
fn bytes_eq_at(b: &[u8], off: usize, p: &Vec<u8>) -> (r: bool)
    requires
        off + p@.len() <= b@.len(),
    ensures
        r == (b@.subrange(off as int, off + p@.len()) == p@),
{
    let n = b.len();
    let m = p.len();
    for j in 0..m
        invariant
            n == b@.len(),
            off + m <= n,
            m == p@.len(),
            forall|k: int| 0 <= k < j ==> b@[off + k] == p@[k],
    {
        if b[off + j] != p[j] {
            proof {
                assert(b@.subrange(off as int, off + p@.len())[j as int] != p@[j as int]);
            }
            return false;
        }
    }
    proof {
        assert(b@.subrange(off as int, off + p@.len()) =~= p@);
    }
    true
}

/// Whether `b` starts with `p`.
fn byte_starts_with(b: &[u8], p: &Vec<u8>) -> (r: bool)
    ensures
        r == starts_with_bytes(b@, p@),
{
    if p.len() > b.len() {
        return false;
    }
    bytes_eq_at(b, 0, p)
}

/// A copy of `b[a..c]`.
fn sub_bytes(b: &[u8], a: usize, c: usize) -> (r: Vec<u8>)
    requires
        a <= c <= b@.len(),
    ensures
        r@ == b@.subrange(a as int, c as int),
{
    let mut r: Vec<u8> = Vec::with_capacity(c - a);
    for i in a..c
        invariant
            a <= i <= c <= b@.len(),
            r@ =~= b@.subrange(a as int, i as int),
    {
        r.push(b[i]);
        proof {
            assert(r@ =~= b@.subrange(a as int, i + 1));
        }
    }
    r
}

/// Index of the first LF in `b`, or the length when absent.
fn find_lf(b: &Vec<u8>) -> (r: usize)
    ensures
        r == find_byte_spec(b@, 10u8),
        r <= b@.len(),
{
    let n = b.len();
    for i in 0..n
        invariant
            n == b@.len(),
            forall|k: int| 0 <= k < i ==> b@[k] != 10u8,
    {
        if b[i] == 10u8 {
            proof {
                lemma_find_byte_agrees(b@, 10u8, i as int);
            }
            return i;
        }
    }
    proof {
        lemma_find_byte_agrees(b@, 10u8, n as int);
    }
    n
}

proof fn lemma_find_byte_agrees(b: Seq<u8>, x: u8, i: int)
    requires
        0 <= i <= b.len(),
        forall|k: int| 0 <= k < i ==> b[k] != x,
        i < b.len() ==> b[i] == x,
    ensures
        find_byte_spec(b, x) == i,
    decreases b.len(),
{
    if b.len() > 0 && b[0] != x {
        lemma_find_byte_agrees(b.drop_first(), x, i - 1);
    }
}

/// Whether the blob is an mbox container: the envelope marker opens it or
/// follows a line break somewhere inside it.
pub fn looks_like_mbox(buf: &[u8]) -> (r: bool)
    ensures
        r == looks_like_mbox_spec(buf@),
{
    let marker = make_from_marker();
    if byte_starts_with(buf, &marker) {
        return true;
    }
    let n = buf.len();
    let mut i: usize = 1;
    while i < n
        invariant
            n == buf@.len(),
            1 <= i,
            marker@ == from_marker(),
            forall|k: int| 1 <= k < i ==> !(#[trigger] marker_at(buf@, k) && buf@[k - 1] == 10),
        decreases n - i,
    {
        if buf[i - 1] == 10u8 && n >= 5 && i <= n - 5 && bytes_eq_at(buf, i, &marker) {
            proof {
                assert(marker_at(buf@, i as int));
            }
            return true;
        }
        i += 1;
    }
    false
}

/// Splits an mbox container into individual message byte vectors, each
/// without its leading envelope line; empty remainders are dropped.
pub fn split_mbox(buf: &[u8]) -> (r: Vec<Vec<u8>>)
    ensures
        r@.map_values(|m: Vec<u8>| m@) == split_mbox_spec(buf@),
{
    let n = buf.len();
    let marker = make_from_marker();
    let mut starts: Vec<usize> = Vec::new();
    let mut i: usize = 0;
    while i < n
        invariant
            n == buf@.len(),
            i <= n,
            marker@ == from_marker(),
            starts@.map_values(|x: usize| x as int) + boundaries_from(buf@, i as int)
                == boundaries_from(buf@, 0),
            forall|j: int|
                0 <= j < starts@.len() ==> #[trigger] is_boundary(buf@, starts@[j] as int),
            forall|j: int| 0 <= j < starts@.len() ==> starts@[j] < i,
            forall|j1: int, j2: int|
                0 <= j1 < j2 < starts@.len() ==> #[trigger] starts@[j1] < #[trigger] starts@[j2],
        decreases n - i,
    {
        let ghost prev = starts@.map_values(|x: usize| x as int);
        let at_marker = n >= 5 && i <= n - 5 && bytes_eq_at(buf, i, &marker);
        let boundary = at_marker && (i == 0 || buf[i - 1] == 10u8);
        if boundary {
            starts.push(i);
            proof {
                assert(starts@.map_values(|x: usize| x as int) =~= prev + seq![i as int]);
            }
        }
        i += 1;
    }
    proof {
        assert(boundaries_from(buf@, n as int) =~= Seq::<int>::empty());
        assert(starts@.map_values(|x: usize| x as int) + Seq::<int>::empty() =~= starts@.map_values(
            |x: usize| x as int,
        ));
    }
    let ghost st = starts@.map_values(|x: usize| x as int);
    let count = starts.len();
    if count == 0 {
        let whole = sub_bytes(buf, 0, n);
        proof {
            assert(whole@ =~= buf@);
        }
        let mut r: Vec<Vec<u8>> = Vec::new();
        r.push(whole);
        proof {
            assert(r@.map_values(|m: Vec<u8>| m@) =~= seq![buf@]);
        }
        return r;
    }
    let mut r: Vec<Vec<u8>> = Vec::new();
    proof {
        assert(r@.map_values(|m: Vec<u8>| m@) =~= Seq::<Seq<u8>>::empty());
    }
    for k in 0..count
        invariant
            n == buf@.len(),
            count == starts@.len(),
            st == starts@.map_values(|x: usize| x as int),
            forall|j: int|
                0 <= j < starts@.len() ==> #[trigger] is_boundary(buf@, starts@[j] as int),
            forall|j: int| 0 <= j < starts@.len() ==> starts@[j] < n,
            forall|j1: int, j2: int|
                0 <= j1 < j2 < starts@.len() ==> #[trigger] starts@[j1] < #[trigger] starts@[j2],
            segments_from(buf@, st, 0) == r@.map_values(|m: Vec<u8>| m@) + segments_from(
                buf@,
                st,
                k as int,
            ),
    {
        let start = starts[k];
        let end = if k + 1 < count {
            starts[k + 1]
        } else {
            n
        };
        proof {
            assert(is_boundary(buf@, start as int));
            if k + 1 < count {
                assert(starts@[k as int] < starts@[k + 1]);
            }
        }
        let seg = sub_bytes(buf, start, end);
        let j = find_lf(&seg);
        let ghost prev = r@.map_values(|m: Vec<u8>| m@);
        if j < seg.len() {
            let msg = sub_bytes(&seg, j + 1, seg.len());
            proof {
                assert(msg@ =~= seg@.skip(j + 1));
            }
            if msg.len() > 0 {
                r.push(msg);
                proof {
                    assert(r@.map_values(|m: Vec<u8>| m@) =~= prev + seq![seg@.skip(j + 1)]);
                }
            }
        }
    }
    proof {
        assert(segments_from(buf@, st, count as int) =~= Seq::<Seq<u8>>::empty());
        assert(r@.map_values(|m: Vec<u8>| m@) + Seq::<Seq<u8>>::empty() =~= r@.map_values(
            |m: Vec<u8>| m@,
        ));
    }
    r
}

fn make_from_colon() -> (p: Vec<u8>)
    ensures
        p@ == from_colon(),
{
    let mut p: Vec<u8> = Vec::new();
    p.push(70u8);
    p.push(114u8);
    p.push(111u8);
    p.push(109u8);
    p.push(58u8);
    proof {
        assert(p@ =~= from_colon());
    }
    p
}

fn make_return_path_colon() -> (p: Vec<u8>)
    ensures
        p@ == return_path_colon(),
{
    let mut p: Vec<u8> = Vec::new();
    p.push(82u8);
    p.push(101u8);
    p.push(116u8);
    p.push(117u8);
    p.push(114u8);
    p.push(110u8);
    p.push(45u8);
    p.push(80u8);
    p.push(97u8);
    p.push(116u8);
    p.push(104u8);
    p.push(58u8);
    proof {
        assert(p@ =~= return_path_colon());
    }
    p
}

fn make_received_colon() -> (p: Vec<u8>)
    ensures
        p@ == received_colon(),
{
    let mut p: Vec<u8> = Vec::new();
    p.push(82u8);
    p.push(101u8);
    p.push(99u8);
    p.push(101u8);
    p.push(105u8);
    p.push(118u8);
    p.push(101u8);
    p.push(100u8);
    p.push(58u8);
    proof {
        assert(p@ =~= received_colon());
    }
    p
}

fn make_date_colon() -> (p: Vec<u8>)
    ensures
        p@ == date_colon(),
{
    let mut p: Vec<u8> = Vec::new();
    p.push(68u8);
    p.push(97u8);
    p.push(116u8);
    p.push(101u8);
    p.push(58u8);
    proof {
        assert(p@ =~= date_colon());
    }
    p
}

fn make_subject_colon() -> (p: Vec<u8>)
    ensures
        p@ == subject_colon(),
{
    let mut p: Vec<u8> = Vec::new();
    p.push(83u8);
    p.push(117u8);
    p.push(98u8);
    p.push(106u8);
    p.push(101u8);
    p.push(99u8);
    p.push(116u8);
    p.push(58u8);
    proof {
        assert(p@ =~= subject_colon());
    }
    p
}

/// Whether a non-mbox blob opens with one of the recognised header prefixes.
pub fn is_recognizable(buf: &[u8]) -> (r: bool)
    ensures
        r == recognizable_spec(buf@),
{
    let from_p = make_from_colon();
    let return_p = make_return_path_colon();
    let received_p = make_received_colon();
    let date_p = make_date_colon();
    let subject_p = make_subject_colon();
    byte_starts_with(buf, &from_p) || byte_starts_with(buf, &return_p) || byte_starts_with(
        buf,
        &received_p,
    ) || byte_starts_with(buf, &date_p) || byte_starts_with(buf, &subject_p)
}

/// Segments one raw blob into candidate message byte vectors: under 10 bytes
/// nothing, an mbox container its split, a recognizable single message
/// itself, anything else nothing.
pub fn segment_blob(buf: &[u8]) -> (r: Vec<Vec<u8>>)
    ensures
        r@.map_values(|m: Vec<u8>| m@) == segment_blob_spec(buf@),
{
    if buf.len() < 10 {
        let r: Vec<Vec<u8>> = Vec::new();
        proof {
            assert(r@.map_values(|m: Vec<u8>| m@) =~= Seq::<Seq<u8>>::empty());
        }
        return r;
    }
    if looks_like_mbox(buf) {
        return split_mbox(buf);
    }
    if is_recognizable(buf) {
        let whole = sub_bytes(buf, 0, buf.len());
        proof {
            assert(whole@ =~= buf@);
        }
        let mut r: Vec<Vec<u8>> = Vec::new();
        r.push(whole);
        proof {
            assert(r@.map_values(|m: Vec<u8>| m@) =~= seq![buf@]);
        }
        return r;
    }
    let r: Vec<Vec<u8>> = Vec::new();
    proof {
        assert(r@.map_values(|m: Vec<u8>| m@) =~= Seq::<Seq<u8>>::empty());
    }
    r
}

} // verus!
