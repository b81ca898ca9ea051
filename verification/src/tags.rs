//! The base's tag replies, and the data of the requests about tags and lights.
use vstd::prelude::*;

verus! {

/// Number of platforms on the base.
pub const PLATFORMS: usize = 3;

/// Length in bytes of a tag identifier.
pub const TAG_LEN: usize = 8;

/// A byte of the index reply that stands for no tag.
pub const NO_INDEX: u8 = 0x09;

/// High and low nibble of an index byte: the platform and the tag index.
pub open spec fn split_index(b: u8) -> (u8, u8) {
    ((b / 16) as u8, (b % 16) as u8)
}

/// The (platform, tag index) pairs that an index reply lists: one per byte
/// other than `NO_INDEX`, in order.
pub open spec fn index_pairs(bytes: Seq<u8>) -> Seq<(u8, u8)> {
    bytes.filter(|b: u8| b != NO_INDEX).map_values(|b: u8| split_index(b))
}

/// Reads the index reply of the base into (platform, tag index) pairs.
pub fn parse_indexes(bytes: Vec<u8>) -> (r: Vec<(u8, u8)>)
    ensures
        r@ == index_pairs(bytes@),
        forall|k: int| 0 <= k < r@.len() ==> (#[trigger] r@[k]).0 < 16 && r@[k].1 < 16,
        r@.map_values(|p: (u8, u8)| (p.0 * 16 + p.1) as u8) == bytes@.filter(|b: u8| b != NO_INDEX),
{
    let mut r: Vec<(u8, u8)> = Vec::new();
    let mut i: usize = 0;
    while i < bytes.len()
        invariant
            i <= bytes@.len(),
            r@ == index_pairs(bytes@.take(i as int)),
        decreases bytes@.len() - i,
    {
        let b = bytes[i];
        proof {
            reveal_with_fuel(Seq::<_>::filter, 1);
            assert(bytes@.take(i + 1).drop_last() =~= bytes@.take(i as int));
        }
        if b != NO_INDEX {
            let pair = ((b & 0xf0) >> 4, b & 0x0f);
            assert(((b & 0xf0) >> 4) == b / 16 && (b & 0x0f) == b % 16) by (bit_vector);
            r.push(pair);
            assert(r@ =~= index_pairs(bytes@.take(i + 1)));
        } else {
            assert(r@ =~= index_pairs(bytes@.take(i + 1)));
        }
        i += 1;
    }
    assert(bytes@.take(bytes@.len() as int) =~= bytes@);
    proof {
        lemma_index_pairs_recompose(bytes@);
    }
    r
}

/// The pairs of an index reply give back its bytes: each nibble is below 16,
/// and putting platform and index together again yields, in order, exactly
/// the bytes of the reply other than `NO_INDEX`.
pub proof fn lemma_index_pairs_recompose(bytes: Seq<u8>)
    ensures
        forall|k: int|
            0 <= k < index_pairs(bytes).len() ==> (#[trigger] index_pairs(bytes)[k]).0 < 16
                && index_pairs(bytes)[k].1 < 16,
        index_pairs(bytes).map_values(|p: (u8, u8)| (p.0 * 16 + p.1) as u8) == bytes.filter(
            |b: u8| b != NO_INDEX,
        ),
{
    let kept = bytes.filter(|b: u8| b != NO_INDEX);
    assert(index_pairs(bytes).map_values(|p: (u8, u8)| (p.0 * 16 + p.1) as u8) =~= kept);
}

/// The identifier in a tag reply: its first eight bytes.
pub open spec fn tag_of(reply: Seq<u8>) -> Seq<u8> {
    reply.take(TAG_LEN as int)
}

/// The identifier of a tag reply is its first eight bytes as they are, and
/// it depends on nothing after them.
pub proof fn lemma_tag_of(reply: Seq<u8>, other: Seq<u8>)
    requires
        reply.len() >= TAG_LEN,
        other.len() >= TAG_LEN,
        forall|k: int| 0 <= k < TAG_LEN ==> #[trigger] other[k] == reply[k],
    ensures
        tag_of(reply).len() == TAG_LEN,
        forall|k: int| 0 <= k < TAG_LEN ==> #[trigger] tag_of(reply)[k] == reply[k],
        tag_of(other) == tag_of(reply),
{
    assert(tag_of(other) =~= tag_of(reply));
}

/// The view of a platform's entry in the tag table.
pub open spec fn tag_view(t: Option<[u8; 8]>) -> Option<Seq<u8>> {
    match t {
        Some(a) => Some(a@),
        None => None,
    }
}

/// The platforms and replies that `assemble_tags` can take: as many replies
/// as pairs, platforms 1 to 3, replies of at least eight bytes.
pub open spec fn tag_replies_ok(indexes: Seq<(u8, u8)>, replies: Seq<Seq<u8>>) -> bool {
    &&& indexes.len() == replies.len()
    &&& forall|k: int| 0 <= k < indexes.len() ==> 1 <= (#[trigger] indexes[k]).0 <= PLATFORMS
    &&& forall|k: int| 0 <= k < replies.len() ==> (#[trigger] replies[k]).len() >= TAG_LEN
}

/// What the table says of platform slot `q` (platform `q + 1`) once the
/// first `n` replies are in: the identifier of the last of them for that
/// platform, or nothing if none was for it.
pub open spec fn tag_entry_ok(
    entry: Option<Seq<u8>>,
    q: int,
    indexes: Seq<(u8, u8)>,
    replies: Seq<Seq<u8>>,
    n: int,
) -> bool {
    match entry {
        Some(t) => exists|k: int|
            0 <= k < n && indexes[k].0 == q + 1 && t == tag_of(replies[k]) && forall|j: int|
                k < j < n ==> (#[trigger] indexes[j]).0 != q + 1,
        None => forall|k: int| 0 <= k < n ==> (#[trigger] indexes[k]).0 != q + 1,
    }
}

/// Copies the identifier out of a tag reply.
pub fn tag_from_reply(reply: &Vec<u8>) -> (tag: [u8; 8])
    requires
        reply@.len() >= TAG_LEN,
    ensures
        tag@ == tag_of(reply@),
        tag@.len() == TAG_LEN,
        forall|k: int| 0 <= k < TAG_LEN ==> #[trigger] tag@[k] == reply@[k],
{
    let mut tag = [0u8; 8];
    let mut i: usize = 0;
    while i < TAG_LEN
        invariant
            i <= TAG_LEN,
            reply@.len() >= TAG_LEN,
            tag@.len() == TAG_LEN,
            forall|k: int| 0 <= k < i ==> tag@[k] == reply@[k],
        decreases TAG_LEN - i,
    {
        tag[i] = reply[i];
        i += 1;
    }
    assert(tag@ =~= tag_of(reply@));
    tag
}

/// Builds the tag table of the base from the index pairs and, for each pair,
/// the reply to the request for its tag: entry `platform - 1` holds the
/// identifier from the last reply for that platform, and stays empty if no
/// pair names it.
pub fn assemble_tags(indexes: &Vec<(u8, u8)>, replies: &Vec<Vec<u8>>) -> (r: [Option<[u8; 8]>; 3])
    requires
        tag_replies_ok(indexes@, replies.deep_view()),
    ensures
        forall|q: int|
            0 <= q < PLATFORMS ==> tag_entry_ok(
                #[trigger] tag_view(r@[q]),
                q,
                indexes@,
                replies.deep_view(),
                indexes@.len() as int,
            ),
        forall|q: int|
            0 <= q < PLATFORMS ==> ((#[trigger] r@[q]) is None <==> forall|k: int|
                0 <= k < indexes@.len() ==> (#[trigger] indexes@[k]).0 != q + 1),
        forall|q: int|
            0 <= q < PLATFORMS && (#[trigger] r@[q]) is Some ==> exists|k: int|
                0 <= k < indexes@.len() && (#[trigger] indexes@[k]).0 == q + 1 && forall|i: int|
                    0 <= i < TAG_LEN ==> #[trigger] r@[q].unwrap()@[i] == replies@[k]@[i],
{
    let ghost rs = replies.deep_view();
    let mut result: [Option<[u8; 8]>; 3] = [None, None, None];
    let mut k: usize = 0;
    while k < indexes.len()
        invariant
            k <= indexes@.len(),
            rs == replies.deep_view(),
            tag_replies_ok(indexes@, rs),
            forall|q: int|
                0 <= q < PLATFORMS ==> tag_entry_ok(
                    #[trigger] tag_view(result@[q]),
                    q,
                    indexes@,
                    rs,
                    k as int,
                ),
        decreases indexes@.len() - k,
    {
        let platform = indexes[k].0;
        assert(1 <= indexes@[k as int].0 <= PLATFORMS);
        assert(rs[k as int] == replies@[k as int]@);
        let tag = tag_from_reply(&replies[k]);
        let ghost old_result = result;
        result[(platform - 1) as usize] = Some(tag);
        assert forall|q: int| 0 <= q < PLATFORMS implies tag_entry_ok(
            #[trigger] tag_view(result@[q]),
            q,
            indexes@,
            rs,
            k + 1,
        ) by {
            if q == platform - 1 {
                assert(tag_view(result@[q]) == Some(tag_of(rs[k as int])));
                assert(indexes@[k as int].0 == q + 1);
            } else {
                assert(result@[q] == old_result@[q]);
                assert(tag_entry_ok(tag_view(old_result@[q]), q, indexes@, rs, k as int));
                match tag_view(result@[q]) {
                    Some(t) => {
                        let w = choose|w: int|
                            0 <= w < k && indexes@[w].0 == q + 1 && t == tag_of(rs[w]) && forall|j: int| w < j < k ==> (#[trigger] indexes@[j]).0 != q + 1;
                        assert(forall|j: int| w < j < k + 1 ==> (#[trigger] indexes@[j]).0 != q + 1);
                    },
                    None => {},
                }
            }
        }
        k += 1;
    }
    assert forall|q: int| 0 <= q < PLATFORMS && (#[trigger] result@[q]) is Some implies exists|k: int|
        0 <= k < indexes@.len() && (#[trigger] indexes@[k]).0 == q + 1 && forall|i: int|
            0 <= i < TAG_LEN ==> #[trigger] result@[q].unwrap()@[i] == replies@[k]@[i] by {
        assert(tag_entry_ok(tag_view(result@[q]), q, indexes@, rs, indexes@.len() as int));
        let t = tag_view(result@[q]).unwrap();
        let w = choose|w: int|
            0 <= w < indexes@.len() && indexes@[w].0 == q + 1 && t == tag_of(rs[w]) && forall|j: int|
                w < j < indexes@.len() ==> (#[trigger] indexes@[j]).0 != q + 1;
        assert(rs[w] == replies@[w]@);
    }
    assert forall|q: int| 0 <= q < PLATFORMS implies ((#[trigger] result@[q]) is None <==> forall|k: int|
        0 <= k < indexes@.len() ==> (#[trigger] indexes@[k]).0 != q + 1) by {
        assert(tag_entry_ok(tag_view(result@[q]), q, indexes@, rs, indexes@.len() as int));
    }
    result
}

/// The data of a request that lights `platform` with `color` (`[r, g, b]`).
pub fn set_color_data(platform: u8, color: [u8; 3]) -> (r: Vec<u8>)
    ensures
        r@ == seq![platform, color@[0], color@[1], color@[2]],
{
    let mut r: Vec<u8> = Vec::new();
    r.push(platform);
    r.push(color[0]);
    r.push(color[1]);
    r.push(color[2]);
    r
}

/// The data of a request for the identifier of the tag at `idx`.
pub fn get_tag_data(idx: u8) -> (r: Vec<u8>)
    ensures
        r@ == seq![idx],
{
    let mut r: Vec<u8> = Vec::new();
    r.push(idx);
    r
}

/// The bytes of the activation text, "(c) Disney 2013".
pub open spec fn activate_text() -> Seq<u8> {
    seq![0x28u8, 0x63, 0x29, 0x20, 0x44, 0x69, 0x73, 0x6e, 0x65, 0x79, 0x20, 0x32, 0x30, 0x31, 0x33]
}

/// The data of the activation request: the activation text.
pub fn activate_data() -> (r: Vec<u8>)
    ensures
        r@ == activate_text(),
{
    let r: Vec<u8> = vec![0x28u8, 0x63, 0x29, 0x20, 0x44, 0x69, 0x73, 0x6e, 0x65, 0x79, 0x20, 0x32, 0x30, 0x31, 0x33];
    assert(r@ =~= activate_text());
    r
}

/// The color that shows whether a platform holds a tag: a dim white when
/// it does, off when it does not.
pub fn presence_color(tag: &Option<[u8; 8]>) -> (c: [u8; 3])
    ensures
        tag.is_some() ==> c@ == seq![126u8, 126, 126],
        tag.is_none() ==> c@ == seq![0u8, 0, 0],
{
    let c = match tag {
        Some(_) => [126u8, 126, 126],
        None => [0u8, 0, 0],
    };
    assert(c@ =~= if tag.is_some() { seq![126u8, 126, 126] } else { seq![0u8, 0, 0] });
    c
}

} // verus!
