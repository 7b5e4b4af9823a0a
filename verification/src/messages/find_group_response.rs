//! The reply to a group query: the peers that the sender holds to be responsible for the
//! region of an identifier.
//!
//! On the wire the message is a tag whose content is an array of two items: the
//! identifier that was asked for, as a byte string, and the group, as an array with one
//! item per member. A member is an array of four byte strings: the encryption key, the
//! signing key, the validation token and the name.
//!
//! A frame is written under `FIND_GROUP_RESPONSE_TAG` with the shortest heads. Reading is
//! more lenient, on purpose, so that frames of peers that write otherwise are still taken:
//! the tag is read and not compared, heads may be wider than needed, and bytes behind the
//! frame are left alone. The type sets no bound on the size of a group.

use crate::codec::Message;
use crate::types::{
    copy_bytes, full_size, pmid_views, DhtId, NameType, PublicPmid, PublicPmidView, NAME_LEN,
};
use crate::wire::{
    agree, bytes_item, has_at, head_bytes, lemma_bytes_agrees, lemma_bytes_round_trip,
    lemma_bytes_within, lemma_has_at_split, lemma_head_advances, lemma_head_agrees,
    lemma_head_round_trip,
    parse_bytes, parse_head, read_bytes, read_head, write_bytes, write_head, MAJOR_ARRAY,
    MAJOR_TAG,
};
use vstd::prelude::*;

verus! {

/// The tag that marks a frame as a group query response.
pub const FIND_GROUP_RESPONSE_TAG: u64 = 5483_001;

/// What a group query response stands for.
pub struct FindGroupResponseView {
    pub target_id: Seq<u8>,
    pub group: Seq<PublicPmidView>,
}

/// The reply to a group query.
#[derive(Debug, PartialEq, Eq)]
pub struct FindGroupResponse {
    /// The identifier that was asked for.
    pub target_id: DhtId,
    /// The credentials of the group's members, in the order the sender gave them.
    pub group: Vec<PublicPmid>,
}

impl View for FindGroupResponse {
    type V = FindGroupResponseView;

    open spec fn view(&self) -> FindGroupResponseView {
        FindGroupResponseView { target_id: self.target_id@, group: pmid_views(self.group@) }
    }
}

/// Every length in the credential can be written in a head.
pub open spec fn valid_pmid(c: PublicPmidView) -> bool {
    &&& c.public_key.len() <= u64::MAX
    &&& c.public_sign_key.len() <= u64::MAX
    &&& c.validation_token.len() <= u64::MAX
    &&& c.name.len() <= u64::MAX
}

/// Every length in the message can be written in a head.
pub open spec fn valid_response(v: FindGroupResponseView) -> bool {
    &&& v.target_id.len() <= u64::MAX
    &&& v.group.len() <= u64::MAX
    &&& forall|i: int| 0 <= i < v.group.len() ==> valid_pmid(#[trigger] v.group[i])
}

/// A credential as a data item.
pub open spec fn pmid_item(c: PublicPmidView) -> Seq<u8> {
    head_bytes(MAJOR_ARRAY, 4) + bytes_item(c.public_key) + bytes_item(c.public_sign_key)
        + bytes_item(c.validation_token) + bytes_item(c.name)
}

/// The items of the credentials of `group`, one behind the other.
pub open spec fn group_items(group: Seq<PublicPmidView>) -> Seq<u8>
    decreases group.len(),
{
    if group.len() == 0 {
        Seq::empty()
    } else {
        pmid_item(group[0]) + group_items(group.skip(1))
    }
}

/// The frame of `v` under `tag`.
pub open spec fn frame(tag: u64, v: FindGroupResponseView) -> Seq<u8> {
    head_bytes(MAJOR_TAG, tag) + head_bytes(MAJOR_ARRAY, 2) + bytes_item(v.target_id)
        + head_bytes(MAJOR_ARRAY, v.group.len() as u64) + group_items(v.group)
}

/// The credential whose item stands in `s` at `pos`, with the position behind it.
pub open spec fn parse_pmid(s: Seq<u8>, pos: int) -> Option<(PublicPmidView, int)> {
    match parse_head(s, pos) {
        Some((head, p0)) => if head.major == MAJOR_ARRAY && head.arg == 4 {
            match parse_bytes(s, p0) {
                Some((public_key, p1)) => match parse_bytes(s, p1) {
                    Some((public_sign_key, p2)) => match parse_bytes(s, p2) {
                        Some((validation_token, p3)) => match parse_bytes(s, p3) {
                            Some((name, p4)) => Some(
                                (
                                    PublicPmidView {
                                        name,
                                        public_key,
                                        public_sign_key,
                                        validation_token,
                                    },
                                    p4,
                                ),
                            ),
                            None => None,
                        },
                        None => None,
                    },
                    None => None,
                },
                None => None,
            }
        } else {
            None
        },
        None => None,
    }
}

/// The `count` credentials whose items stand in `s` from `pos` on, with the position
/// behind the last.
pub open spec fn parse_group(s: Seq<u8>, pos: int, count: nat) -> Option<
    (Seq<PublicPmidView>, int),
>
    decreases count,
{
    if count == 0 {
        Some((Seq::empty(), pos))
    } else {
        match parse_pmid(s, pos) {
            Some((first, next)) => match parse_group(s, next, (count - 1) as nat) {
                Some((rest, end)) => Some((seq![first] + rest, end)),
                None => None,
            },
            None => None,
        }
    }
}

/// The message whose frame stands in `s` at `pos`, with the position behind the frame.
/// The tag is read and not looked at: a frame under any tag is taken.
pub open spec fn parse_frame(s: Seq<u8>, pos: int) -> Option<(FindGroupResponseView, int)> {
    match parse_head(s, pos) {
        Some((tag, p0)) => if tag.major == MAJOR_TAG {
            match parse_head(s, p0) {
                Some((pair, p1)) => if pair.major == MAJOR_ARRAY && pair.arg == 2 {
                    match parse_bytes(s, p1) {
                        Some((target_id, p2)) => match parse_head(s, p2) {
                            Some((members, p3)) => if members.major == MAJOR_ARRAY {
                                match parse_group(s, p3, members.arg as nat) {
                                    Some((group, p4)) => Some(
                                        (FindGroupResponseView { target_id, group }, p4),
                                    ),
                                    None => None,
                                }
                            } else {
                                None
                            },
                            None => None,
                        },
                        None => None,
                    }
                } else {
                    None
                },
                None => None,
            }
        } else {
            None
        },
        None => None,
    }
}

/// A credential is read back as it was written.
pub proof fn lemma_pmid_round_trip(s: Seq<u8>, pos: int, c: PublicPmidView)
    requires
        valid_pmid(c),
        has_at(s, pos, pmid_item(c)),
    ensures
        parse_pmid(s, pos) == Some((c, pos + pmid_item(c).len())),
{
    let h = head_bytes(MAJOR_ARRAY, 4);
    let b1 = bytes_item(c.public_key);
    let b2 = bytes_item(c.public_sign_key);
    let b3 = bytes_item(c.validation_token);
    let b4 = bytes_item(c.name);
    lemma_has_at_split(s, pos, h + b1 + b2 + b3, b4);
    lemma_has_at_split(s, pos, h + b1 + b2, b3);
    lemma_has_at_split(s, pos, h + b1, b2);
    lemma_has_at_split(s, pos, h, b1);
    lemma_head_round_trip(s, pos, MAJOR_ARRAY, 4);
    let p0 = pos + h.len();
    lemma_bytes_round_trip(s, p0, c.public_key);
    let p1 = p0 + b1.len();
    lemma_bytes_round_trip(s, p1, c.public_sign_key);
    let p2 = p1 + b2.len();
    lemma_bytes_round_trip(s, p2, c.validation_token);
    let p3 = p2 + b3.len();
    lemma_bytes_round_trip(s, p3, c.name);
}

/// A credential that is read ends behind where it starts, within the sequence.
pub proof fn lemma_pmid_within(s: Seq<u8>, pos: int)
    requires
        parse_pmid(s, pos) is Some,
    ensures
        0 <= pos < parse_pmid(s, pos).unwrap().1 <= s.len(),
{
    let (_, p0) = parse_head(s, pos).unwrap();
    let (_, p1) = parse_bytes(s, p0).unwrap();
    let (_, p2) = parse_bytes(s, p1).unwrap();
    let (_, p3) = parse_bytes(s, p2).unwrap();
    lemma_head_advances(s, pos);
    lemma_bytes_within(s, p0);
    lemma_bytes_within(s, p1);
    lemma_bytes_within(s, p2);
    lemma_bytes_within(s, p3);
}

/// A credential that is read is read alike from any sequence that agrees up to its end.
pub proof fn lemma_pmid_agrees(s: Seq<u8>, t: Seq<u8>, pos: int)
    requires
        parse_pmid(s, pos) is Some,
        agree(s, t, parse_pmid(s, pos).unwrap().1),
    ensures
        parse_pmid(t, pos) == parse_pmid(s, pos),
{
    let (_, p0) = parse_head(s, pos).unwrap();
    let (_, p1) = parse_bytes(s, p0).unwrap();
    let (_, p2) = parse_bytes(s, p1).unwrap();
    let (_, p3) = parse_bytes(s, p2).unwrap();
    lemma_head_advances(s, pos);
    lemma_bytes_within(s, p0);
    lemma_bytes_within(s, p1);
    lemma_bytes_within(s, p2);
    lemma_bytes_within(s, p3);
    lemma_head_agrees(s, t, pos);
    lemma_bytes_agrees(s, t, p0);
    lemma_bytes_agrees(s, t, p1);
    lemma_bytes_agrees(s, t, p2);
    lemma_bytes_agrees(s, t, p3);
}

/// The items of a group that grows by one member at its end grow by that member's item.
pub proof fn lemma_group_items_push(group: Seq<PublicPmidView>, c: PublicPmidView)
    ensures
        group_items(group.push(c)) == group_items(group) + pmid_item(c),
    decreases group.len(),
{
    if group.len() == 0 {
        let grown = group.push(c);
        assert(grown[0] == c);
        assert(grown.skip(1) =~= Seq::<PublicPmidView>::empty());
        assert(group_items(grown.skip(1)) =~= Seq::<u8>::empty());
        assert(group_items(grown) =~= group_items(group) + pmid_item(c));
    } else {
        lemma_group_items_push(group.skip(1), c);
        assert(group.push(c).skip(1) =~= group.skip(1).push(c));
        assert(group_items(group.push(c)) =~= group_items(group) + pmid_item(c));
    }
}

/// A group is read back as it was written.
pub proof fn lemma_group_round_trip(s: Seq<u8>, pos: int, group: Seq<PublicPmidView>)
    requires
        forall|i: int| 0 <= i < group.len() ==> valid_pmid(#[trigger] group[i]),
        has_at(s, pos, group_items(group)),
    ensures
        parse_group(s, pos, group.len()) == Some((group, pos + group_items(group).len())),
    decreases group.len(),
{
    if group.len() == 0 {
        assert(group =~= Seq::<PublicPmidView>::empty());
    } else {
        let first = pmid_item(group[0]);
        let rest = group.skip(1);
        lemma_has_at_split(s, pos, first, group_items(rest));
        lemma_pmid_round_trip(s, pos, group[0]);
        assert forall|i: int| 0 <= i < rest.len() implies valid_pmid(#[trigger] rest[i]) by {
            assert(rest[i] == group[i + 1]);
        }
        lemma_group_round_trip(s, pos + first.len(), rest);
        assert(seq![group[0]] + rest =~= group);
    }
}

/// A group that is read ends within the sequence, at or behind where it starts.
pub proof fn lemma_group_within(s: Seq<u8>, pos: int, count: nat)
    requires
        0 <= pos <= s.len(),
        parse_group(s, pos, count) is Some,
    ensures
        pos <= parse_group(s, pos, count).unwrap().1 <= s.len(),
        parse_group(s, pos, count).unwrap().0.len() == count,
    decreases count,
{
    if count > 0 {
        lemma_pmid_within(s, pos);
        lemma_group_within(s, parse_pmid(s, pos).unwrap().1, (count - 1) as nat);
    }
}

/// A group that is read is read alike from any sequence that agrees up to its end.
pub proof fn lemma_group_agrees(s: Seq<u8>, t: Seq<u8>, pos: int, count: nat)
    requires
        0 <= pos <= s.len(),
        parse_group(s, pos, count) is Some,
        agree(s, t, parse_group(s, pos, count).unwrap().1),
    ensures
        parse_group(t, pos, count) == parse_group(s, pos, count),
    decreases count,
{
    if count > 0 {
        let next = parse_pmid(s, pos).unwrap().1;
        lemma_pmid_within(s, pos);
        lemma_group_within(s, next, (count - 1) as nat);
        lemma_pmid_agrees(s, t, pos);
        lemma_group_agrees(s, t, next, (count - 1) as nat);
    }
}

/// A frame is read back as the message it was written for, under whatever tag.
pub proof fn lemma_frame_round_trip(s: Seq<u8>, pos: int, tag: u64, v: FindGroupResponseView)
    requires
        valid_response(v),
        has_at(s, pos, frame(tag, v)),
    ensures
        frame(tag, v).len() > 0,
        parse_frame(s, pos) == Some((v, pos + frame(tag, v).len())),
{
    let h0 = head_bytes(MAJOR_TAG, tag);
    let h1 = head_bytes(MAJOR_ARRAY, 2);
    let b = bytes_item(v.target_id);
    let h2 = head_bytes(MAJOR_ARRAY, v.group.len() as u64);
    let g = group_items(v.group);
    lemma_has_at_split(s, pos, h0 + h1 + b + h2, g);
    lemma_has_at_split(s, pos, h0 + h1 + b, h2);
    lemma_has_at_split(s, pos, h0 + h1, b);
    lemma_has_at_split(s, pos, h0, h1);
    lemma_head_round_trip(s, pos, MAJOR_TAG, tag);
    lemma_head_advances(s, pos);
    let p0 = pos + h0.len();
    lemma_head_round_trip(s, p0, MAJOR_ARRAY, 2);
    let p1 = p0 + h1.len();
    lemma_bytes_round_trip(s, p1, v.target_id);
    let p2 = p1 + b.len();
    lemma_head_round_trip(s, p2, MAJOR_ARRAY, v.group.len() as u64);
    let p3 = p2 + h2.len();
    lemma_group_round_trip(s, p3, v.group);
}

/// A frame that is read ends within the sequence.
pub proof fn lemma_frame_within(s: Seq<u8>, pos: int)
    requires
        parse_frame(s, pos) is Some,
    ensures
        0 <= pos < parse_frame(s, pos).unwrap().1 <= s.len(),
{
    let (_, p0) = parse_head(s, pos).unwrap();
    let (_, p1) = parse_head(s, p0).unwrap();
    let (_, p2) = parse_bytes(s, p1).unwrap();
    let (members, p3) = parse_head(s, p2).unwrap();
    lemma_head_advances(s, pos);
    lemma_head_advances(s, p0);
    lemma_bytes_within(s, p1);
    lemma_head_advances(s, p2);
    lemma_group_within(s, p3, members.arg as nat);
}

/// A frame that is read is read alike from any sequence that agrees up to its end.
pub proof fn lemma_frame_agrees(s: Seq<u8>, t: Seq<u8>, pos: int)
    requires
        parse_frame(s, pos) is Some,
        agree(s, t, parse_frame(s, pos).unwrap().1),
    ensures
        parse_frame(t, pos) == parse_frame(s, pos),
{
    let (_, p0) = parse_head(s, pos).unwrap();
    let (_, p1) = parse_head(s, p0).unwrap();
    let (_, p2) = parse_bytes(s, p1).unwrap();
    let (members, p3) = parse_head(s, p2).unwrap();
    lemma_head_advances(s, pos);
    lemma_head_advances(s, p0);
    lemma_bytes_within(s, p1);
    lemma_head_advances(s, p2);
    lemma_group_within(s, p3, members.arg as nat);
    lemma_head_agrees(s, t, pos);
    lemma_head_agrees(s, t, p0);
    lemma_bytes_agrees(s, t, p1);
    lemma_head_agrees(s, t, p2);
    lemma_group_agrees(s, t, p3, members.arg as nat);
}

/// Appends the item of `c` to `out`.
pub fn write_pmid(out: &mut Vec<u8>, c: &PublicPmid)
    ensures
        valid_pmid(c@),
        final(out)@ == old(out)@ + pmid_item(c@),
{
    write_head(out, MAJOR_ARRAY, 4);
    write_bytes(out, &c.public_key);
    write_bytes(out, &c.public_sign_key);
    write_bytes(out, &c.validation_token);
    write_bytes(out, &c.name.0);
    assert(out@ =~= old(out)@ + pmid_item(c@));
}

/// Reads the credential whose item stands in `bytes` at `pos`.
pub fn read_pmid(bytes: &[u8], pos: usize) -> (r: Option<(PublicPmid, usize)>)
    ensures
        match r {
            Some((c, next)) => parse_pmid(bytes@, pos as int) == Some((c@, next as int)),
            None => parse_pmid(bytes@, pos as int) is None,
        },
{
    let (head, p0) = match read_head(bytes, pos) {
        Some(found) => found,
        None => { return None; },
    };
    if head.major != MAJOR_ARRAY || head.arg != 4 {
        return None;
    }
    let (public_key, p1) = match read_bytes(bytes, p0) {
        Some(found) => found,
        None => { return None; },
    };
    let (public_sign_key, p2) = match read_bytes(bytes, p1) {
        Some(found) => found,
        None => { return None; },
    };
    let (validation_token, p3) = match read_bytes(bytes, p2) {
        Some(found) => found,
        None => { return None; },
    };
    let (name, p4) = match read_bytes(bytes, p3) {
        Some(found) => found,
        None => { return None; },
    };
    Some((PublicPmid { name: NameType(name), public_key, public_sign_key, validation_token }, p4))
}

/// What is read where `front` was read before and `rest` is read behind it.
pub open spec fn with_front(
    front: Seq<PublicPmidView>,
    rest: Option<(Seq<PublicPmidView>, int)>,
) -> Option<(Seq<PublicPmidView>, int)> {
    match rest {
        Some((group, end)) => Some((front + group, end)),
        None => None,
    }
}

impl Message for FindGroupResponse {
    open spec fn valid(v: FindGroupResponseView) -> bool {
        valid_response(v)
    }

    open spec fn encoding(v: FindGroupResponseView) -> Seq<u8> {
        frame(FIND_GROUP_RESPONSE_TAG, v)
    }

    open spec fn decoding(s: Seq<u8>, pos: int) -> Option<(FindGroupResponseView, int)> {
        parse_frame(s, pos)
    }

    proof fn lemma_round_trip(v: FindGroupResponseView, s: Seq<u8>, pos: int) {
        lemma_frame_round_trip(s, pos, FIND_GROUP_RESPONSE_TAG, v);
    }

    proof fn lemma_within(s: Seq<u8>, pos: int) {
        lemma_frame_within(s, pos);
    }

    proof fn lemma_agrees(s: Seq<u8>, t: Seq<u8>, pos: int) {
        lemma_frame_agrees(s, t, pos);
    }

    fn encode(&self, out: &mut Vec<u8>) {
        write_head(out, MAJOR_TAG, FIND_GROUP_RESPONSE_TAG);
        write_head(out, MAJOR_ARRAY, 2);
        write_bytes(out, &self.target_id.0);
        write_head(out, MAJOR_ARRAY, self.group.len() as u64);
        let ghost base = out@;
        let ghost views = pmid_views(self.group@);
        let mut i: usize = 0;
        while i < self.group.len()
            invariant
                i <= self.group.len(),
                views == pmid_views(self.group@),
                out@ == base + group_items(views.take(i as int)),
                forall|j: int| 0 <= j < i ==> valid_pmid(#[trigger] views[j]),
            decreases self.group.len() - i,
        {
            let ghost before = out@;
            write_pmid(out, &self.group[i]);
            proof {
                lemma_group_items_push(views.take(i as int), views[i as int]);
                assert(views.take(i + 1) =~= views.take(i as int).push(views[i as int]));
                assert(out@ =~= base + group_items(views.take(i + 1)));
            }
            i += 1;
        }
        proof {
            assert(views.take(i as int) =~= views);
            assert(out@ =~= old(out)@ + frame(FIND_GROUP_RESPONSE_TAG, self@));
        }
    }

    fn decode(bytes: &[u8], pos: usize) -> (r: Option<(FindGroupResponse, usize)>) {
        let (tag, p0) = match read_head(bytes, pos) {
            Some(found) => found,
            None => { return None; },
        };
        if tag.major != MAJOR_TAG {
            return None;
        }
        let (pair, p1) = match read_head(bytes, p0) {
            Some(found) => found,
            None => { return None; },
        };
        if pair.major != MAJOR_ARRAY || pair.arg != 2 {
            return None;
        }
        let (target_id, p2) = match read_bytes(bytes, p1) {
            Some(found) => found,
            None => { return None; },
        };
        let (members, p3) = match read_head(bytes, p2) {
            Some(found) => found,
            None => { return None; },
        };
        if members.major != MAJOR_ARRAY {
            return None;
        }
        let mut group: Vec<PublicPmid> = Vec::new();
        let mut at: usize = p3;
        let mut left: u64 = members.arg;
        proof {
            assert(pmid_views(group@) =~= Seq::<PublicPmidView>::empty());
            let whole = parse_group(bytes@, p3 as int, members.arg as nat);
            if whole is Some {
                assert(Seq::<PublicPmidView>::empty() + whole.unwrap().0 =~= whole.unwrap().0);
            }
        }
        while left > 0
            invariant
                parse_frame(bytes@, pos as int) == match parse_group(
                    bytes@,
                    p3 as int,
                    members.arg as nat,
                ) {
                    Some((found, end)) => Some(
                        (FindGroupResponseView { target_id: target_id@, group: found }, end),
                    ),
                    None => None,
                },
                parse_group(bytes@, p3 as int, members.arg as nat) == with_front(
                    pmid_views(group@),
                    parse_group(bytes@, at as int, left as nat),
                ),
            decreases left,
        {
            match read_pmid(bytes, at) {
                Some((member, next)) => {
                    proof {
                        let rest = parse_group(bytes@, next as int, (left - 1) as nat);
                        if rest is Some {
                            assert(pmid_views(group@) + (seq![member@] + rest.unwrap().0)
                                =~= pmid_views(group@.push(member)) + rest.unwrap().0);
                        }
                    }
                    group.push(member);
                    at = next;
                    left = left - 1;
                },
                None => {
                    return None;
                },
            }
        }
        proof {
            assert(pmid_views(group@) + Seq::<PublicPmidView>::empty() =~= pmid_views(group@));
        }
        Some((FindGroupResponse { target_id: NameType(target_id), group }, at))
    }
}

/// How many members `generate_random` gives a group.
pub const RANDOM_GROUP_SIZE: usize = 99;

impl FindGroupResponse {
    /// A response about a random identifier, with `RANDOM_GROUP_SIZE` random members.
    pub fn generate_random() -> (r: FindGroupResponse)
        ensures
            r@.target_id.len() == NAME_LEN,
            r@.group.len() == RANDOM_GROUP_SIZE,
            forall|i: int| 0 <= i < r@.group.len() ==> full_size(#[trigger] r@.group[i]),
    {
        let mut vec: Vec<PublicPmid> = Vec::with_capacity(RANDOM_GROUP_SIZE);
        let mut i: usize = 0;
        while i < RANDOM_GROUP_SIZE
            invariant
                i <= RANDOM_GROUP_SIZE,
                vec@.len() == i,
                forall|j: int| 0 <= j < i ==> full_size(#[trigger] vec@[j]@),
            decreases RANDOM_GROUP_SIZE - i,
        {
            vec.push(PublicPmid::generate_random());
            i += 1;
        }
        FindGroupResponse { target_id: DhtId::generate_random(), group: vec }
    }
}

impl Clone for FindGroupResponse {
    fn clone(&self) -> (r: FindGroupResponse)
        ensures
            r@ == self@,
    {
        let mut group: Vec<PublicPmid> = Vec::with_capacity(self.group.len());
        let mut i: usize = 0;
        while i < self.group.len()
            invariant
                i <= self.group.len(),
                pmid_views(group@) == pmid_views(self.group@).take(i as int),
            decreases self.group.len() - i,
        {
            let ghost before = pmid_views(group@);
            let member = self.group[i].clone();
            group.push(member);
            proof {
                assert(pmid_views(group@) =~= before.push(member@));
                assert(pmid_views(self.group@)[i as int] == self.group@[i as int]@);
                assert(pmid_views(group@) =~= pmid_views(self.group@).take(i + 1));
            }
            i += 1;
        }
        proof {
            assert(pmid_views(self.group@).take(i as int) =~= pmid_views(self.group@));
        }
        FindGroupResponse { target_id: self.target_id.clone(), group }
    }
}

} // verus!
