//! The stored record format.
//!
//! A proposal is kept in the durable store as one byte string:
//! the identifier and the three counters little-endian, one activity
//! byte, the length-prefixed description, the length-prefixed owner
//! token, and the count-prefixed list of length-prefixed voter tokens.
//!
//! The format is this library's own: it is not a candid encoding, and
//! bytes persisted in any other format do not decode.
use vstd::prelude::*;

use vstd::bytes::lemma_auto_spec_u32_to_from_le_bytes;
use vstd::bytes::lemma_auto_spec_u64_to_from_le_bytes;
use vstd::bytes::spec_u32_from_le_bytes;
use vstd::bytes::spec_u32_to_le_bytes;
use vstd::bytes::spec_u64_from_le_bytes;
use vstd::bytes::spec_u64_to_le_bytes;
use vstd::bytes::u32_from_le_bytes;
use vstd::bytes::u32_to_le_bytes;
use vstd::bytes::u64_from_le_bytes;
use vstd::bytes::u64_to_le_bytes;
use vstd::slice::slice_subrange;
use vstd::slice::slice_to_vec;

use crate::identity::Identity;
use crate::identity::MAX_IDENTITY_LEN;
use crate::proposal::voted_views;
use crate::proposal::Proposal;
use crate::proposal::ProposalView;

verus! {

/// Bytes of the fixed-width fields before the description: the 8-byte
/// identifier, three 4-byte counters, the activity byte, and the
/// 4-byte description length.
pub const FIXED_PREFIX_LEN: usize = 25;

/// The byte that records the activity flag.
pub open spec fn active_byte(a: bool) -> u8 {
    if a {
        1u8
    } else {
        0u8
    }
}

/// One identity token as stored: a length byte, then the bytes.
pub open spec fn ident_bytes(i: Seq<u8>) -> Seq<u8> {
    seq![i.len() as u8] + i
}

/// The voter list as stored: each token in order.
pub open spec fn voted_bytes(vs: Seq<Seq<u8>>) -> Seq<u8>
    decreases vs.len(),
{
    if vs.len() == 0 {
        Seq::empty()
    } else {
        ident_bytes(vs.first()) + voted_bytes(vs.drop_first())
    }
}

/// How many bytes the voter list takes.
pub open spec fn voted_len(vs: Seq<Seq<u8>>) -> int
    decreases vs.len(),
{
    if vs.len() == 0 {
        0
    } else {
        1 + vs.first().len() + voted_len(vs.drop_first())
    }
}

/// Whether a record can be written at all: the description and the
/// voter count fit their 4-byte length prefixes, and every identity
/// fits its 1-byte prefix.
pub open spec fn encodable(p: ProposalView) -> bool {
    &&& p.description.len() <= u32::MAX
    &&& p.voted.len() <= u32::MAX
    &&& p.ids_valid()
}

/// The whole stored form of a record.
pub open spec fn spec_encode(p: ProposalView) -> Seq<u8> {
    spec_u64_to_le_bytes(p.id) + spec_u32_to_le_bytes(p.approve) + spec_u32_to_le_bytes(p.reject)
        + spec_u32_to_le_bytes(p.pass) + seq![active_byte(p.is_active)] + spec_u32_to_le_bytes(
        p.description.len() as u32,
    ) + p.description + ident_bytes(p.owner) + spec_u32_to_le_bytes(p.voted.len() as u32)
        + voted_bytes(p.voted)
}

/// How many bytes the whole record takes.
pub open spec fn encoded_len(p: ProposalView) -> int {
    FIXED_PREFIX_LEN + p.description.len() + 1 + p.owner.len() + 4 + voted_len(p.voted)
}

/// Reads one identity token at `i`: the length byte, then that many
/// bytes; rejects an empty token.
pub open spec fn parse_ident(b: Seq<u8>, i: int) -> Option<(Seq<u8>, int)> {
    if 0 <= i < b.len() {
        let n = b[i] as int;
        if 1 <= n && i + 1 + n <= b.len() {
            Some((b.subrange(i + 1, i + 1 + n), i + 1 + n))
        } else {
            None
        }
    } else {
        None
    }
}

/// Reads `count` identity tokens starting at `i`.
pub open spec fn parse_voted(b: Seq<u8>, i: int, count: nat) -> Option<(Seq<Seq<u8>>, int)>
    decreases count,
{
    if count == 0 {
        Some((Seq::empty(), i))
    } else {
        match parse_ident(b, i) {
            Some((first, j)) => match parse_voted(b, j, (count - 1) as nat) {
                Some((rest, end)) => Some((seq![first] + rest, end)),
                None => None,
            },
            None => None,
        }
    }
}

/// What a byte string means as a record, if anything: the parse of the
/// whole string, which must be consumed exactly.
pub open spec fn spec_decode(b: Seq<u8>) -> Option<ProposalView> {
    if b.len() < FIXED_PREFIX_LEN {
        None
    } else {
        let act = b[20];
        let dlen = spec_u32_from_le_bytes(b.subrange(21, 25)) as int;
        if act != 0 && act != 1 {
            None
        } else if 25 + dlen > b.len() {
            None
        } else {
            match parse_ident(b, 25 + dlen) {
                None => None,
                Some((owner, j)) => if j + 4 > b.len() {
                    None
                } else {
                    let vcount = spec_u32_from_le_bytes(b.subrange(j, j + 4));
                    match parse_voted(b, j + 4, vcount as nat) {
                        None => None,
                        Some((voted, end)) => if end == b.len() {
                            Some(
                                ProposalView {
                                    id: spec_u64_from_le_bytes(b.subrange(0, 8)),
                                    description: b.subrange(25, 25 + dlen),
                                    approve: spec_u32_from_le_bytes(b.subrange(8, 12)),
                                    reject: spec_u32_from_le_bytes(b.subrange(12, 16)),
                                    pass: spec_u32_from_le_bytes(b.subrange(16, 20)),
                                    is_active: act == 1,
                                    voted,
                                    owner,
                                },
                            )
                        } else {
                            None
                        },
                    }
                },
            }
        }
    }
}

/// The voter list takes as many bytes as its tokens and prefixes.
pub proof fn lemma_voted_bytes_len(vs: Seq<Seq<u8>>)
    ensures
        voted_bytes(vs).len() == voted_len(vs),
        voted_len(vs) >= 0,
    decreases vs.len(),
{
    if vs.len() > 0 {
        lemma_voted_bytes_len(vs.drop_first());
    }
}

/// Appending one voter appends its stored form.
pub proof fn lemma_voted_bytes_push(vs: Seq<Seq<u8>>, x: Seq<u8>)
    ensures
        voted_bytes(vs.push(x)) == voted_bytes(vs) + ident_bytes(x),
        voted_len(vs.push(x)) == voted_len(vs) + 1 + x.len(),
    decreases vs.len(),
{
    let w = vs.push(x);
    if vs.len() == 0 {
        assert(w.first() == x);
        assert(w.drop_first() =~= Seq::<Seq<u8>>::empty());
        assert(voted_bytes(w.drop_first()) == Seq::<u8>::empty());
        assert(voted_bytes(w) == ident_bytes(x) + Seq::<u8>::empty());
        assert(voted_bytes(w) =~= voted_bytes(vs) + ident_bytes(x));
        assert(voted_len(w) == 1 + x.len() + voted_len(w.drop_first()));
    } else {
        assert(w.first() == vs.first());
        assert(w.drop_first() =~= vs.drop_first().push(x));
        lemma_voted_bytes_push(vs.drop_first(), x);
        assert(voted_bytes(w) == ident_bytes(vs.first()) + voted_bytes(w.drop_first()));
        assert(voted_bytes(vs) == ident_bytes(vs.first()) + voted_bytes(vs.drop_first()));
        assert(voted_bytes(w) =~= voted_bytes(vs) + ident_bytes(x));
        assert(voted_len(w) == 1 + vs.first().len() + voted_len(w.drop_first()));
        assert(voted_len(vs) == 1 + vs.first().len() + voted_len(vs.drop_first()));
    }
}

/// The stored record is exactly `encoded_len` bytes long.
pub proof fn lemma_encode_len(p: ProposalView)
    ensures
        spec_encode(p).len() == encoded_len(p),
        encoded_len(p) >= FIXED_PREFIX_LEN + 5,
    decreases p.voted.len(),
{
    lemma_auto_spec_u64_to_from_le_bytes();
    lemma_auto_spec_u32_to_from_le_bytes();
    lemma_voted_bytes_len(p.voted);
}

/// A parsed voter list has exactly `count` tokens, each non-empty and
/// short enough for its prefix, and consumes at least two bytes per token.
pub proof fn lemma_parse_voted_bounds(b: Seq<u8>, i: int, count: nat)
    requires
        0 <= i <= b.len(),
    ensures
        match parse_voted(b, i, count) {
            Some((vs, end)) => {
                &&& vs.len() == count
                &&& i <= end <= b.len()
                &&& end - i >= 2 * count
                &&& end - i == voted_len(vs)
                &&& forall|j: int|
                    0 <= j < vs.len() ==> 1 <= (#[trigger] vs[j]).len() <= MAX_IDENTITY_LEN
            },
            None => true,
        },
    decreases count,
{
    if count > 0 {
        match parse_ident(b, i) {
            Some((first, j)) => {
                lemma_parse_voted_bounds(b, j, (count - 1) as nat);
                match parse_voted(b, j, (count - 1) as nat) {
                    Some((rest, end)) => {
                        let vs = seq![first] + rest;
                        assert(parse_voted(b, i, count) == Some((vs, end)));
                        assert(vs.drop_first() =~= rest);
                        assert(vs.first() == first);
                        assert(first.len() == b[i] as int);
                        assert(voted_len(vs) == 1 + first.len() + voted_len(rest));
                        assert(end - j == voted_len(rest));
                        assert(j == i + 1 + first.len());
                        assert forall|jj: int| 0 <= jj < vs.len() implies 1 <= (#[trigger] vs[jj]).len()
                            <= MAX_IDENTITY_LEN by {
                            if jj == 0 {
                                assert(vs[0] == first);
                            } else {
                                assert(vs[jj] == rest[jj - 1]);
                            }
                        }
                    },
                    None => {},
                }
            },
            None => {},
        }
    }
}

/// Parsing reads back exactly the voter list that was written.
pub proof fn lemma_parse_voted_encodes(b: Seq<u8>, i: int, vs: Seq<Seq<u8>>)
    requires
        0 <= i,
        i + voted_len(vs) <= b.len(),
        b.subrange(i, i + voted_len(vs)) == voted_bytes(vs),
        forall|j: int| 0 <= j < vs.len() ==> 1 <= (#[trigger] vs[j]).len() <= MAX_IDENTITY_LEN,
    ensures
        parse_voted(b, i, vs.len() as nat) == Some((vs, i + voted_len(vs))),
    decreases vs.len(),
{
    lemma_voted_bytes_len(vs);
    if vs.len() == 0 {
        assert(parse_voted(b, i, 0) == Some((Seq::<Seq<u8>>::empty(), i)));
        assert(vs =~= Seq::<Seq<u8>>::empty());
    } else {
        let first = vs.first();
        let rest = vs.drop_first();
        lemma_voted_bytes_len(rest);
        let n = first.len() as int;
        let seg = b.subrange(i, i + voted_len(vs));
        assert(seg == ident_bytes(first) + voted_bytes(rest));
        assert(b[i] == seg[0]);
        assert(seg[0] == first.len() as u8);
        assert(b[i] as int == n);
        assert(b.subrange(i + 1, i + 1 + n) =~= first) by {
            assert(forall|k: int|
                0 <= k < n ==> b.subrange(i + 1, i + 1 + n)[k] == seg[1 + k] && seg[1 + k]
                    == first[k]);
        }
        assert(parse_ident(b, i) == Some((first, i + 1 + n)));
        let j = i + 1 + n;
        assert(b.subrange(j, j + voted_len(rest)) =~= voted_bytes(rest)) by {
            assert(forall|k: int|
                0 <= k < voted_len(rest) ==> b.subrange(j, j + voted_len(rest))[k] == seg[1 + n + k]
                    && seg[1 + n + k] == voted_bytes(rest)[k]);
        }
        lemma_parse_voted_encodes(b, j, rest);
        assert(seq![first] + rest =~= vs);
    }
}

impl Proposal {
    /// Writes the record in its stored form; `None` exactly when some
    /// length does not fit its prefix, so the record is not encodable.
    #[verifier::loop_isolation(false)]
    pub fn to_bytes(&self) -> (r: Option<Vec<u8>>)
        ensures
            match r {
                Some(v) => encodable(self@) && v@ == spec_encode(self@),
                None => !encodable(self@),
            },
    {
        if self.description.len() > u32::MAX as usize {
            return None;
        }
        if self.voted.len() > u32::MAX as usize {
            return None;
        }
        if self.owner.bytes.len() < 1 || self.owner.bytes.len() > MAX_IDENTITY_LEN {
            return None;
        }
        let vn = self.voted.len();
        let mut k: usize = 0;
        while k < vn
            invariant
                0 <= k <= vn,
                vn == self.voted@.len(),
                forall|j: int|
                    0 <= j < k ==> 1 <= (#[trigger] self@.voted[j]).len() <= MAX_IDENTITY_LEN,
            decreases vn - k,
        {
            let n = self.voted[k].bytes.len();
            if n < 1 || n > MAX_IDENTITY_LEN {
                assert(self@.voted[k as int].len() == n);
                return None;
            }
            assert(self@.voted[k as int].len() == n);
            k += 1;
        }
        assert(encodable(self@));
        let mut out: Vec<u8> = Vec::new();
        let mut piece = u64_to_le_bytes(self.id);
        out.append(&mut piece);
        let mut piece = u32_to_le_bytes(self.approve);
        out.append(&mut piece);
        let mut piece = u32_to_le_bytes(self.reject);
        out.append(&mut piece);
        let mut piece = u32_to_le_bytes(self.pass);
        out.append(&mut piece);
        if self.is_active {
            out.push(1u8);
        } else {
            out.push(0u8);
        }
        let mut piece = u32_to_le_bytes(self.description.len() as u32);
        out.append(&mut piece);
        let mut piece = slice_to_vec(self.description.as_slice());
        out.append(&mut piece);
        out.push(self.owner.bytes.len() as u8);
        let mut piece = slice_to_vec(self.owner.bytes.as_slice());
        out.append(&mut piece);
        let mut piece = u32_to_le_bytes(self.voted.len() as u32);
        out.append(&mut piece);
        proof {
            assert(out@ =~= spec_u64_to_le_bytes(self@.id) + spec_u32_to_le_bytes(self@.approve)
                + spec_u32_to_le_bytes(self@.reject) + spec_u32_to_le_bytes(self@.pass) + seq![
                active_byte(self@.is_active),
            ] + spec_u32_to_le_bytes(self@.description.len() as u32) + self@.description
                + ident_bytes(self@.owner) + spec_u32_to_le_bytes(self@.voted.len() as u32));
        }
        let ghost prefix = out@;
        let mut k: usize = 0;
        while k < vn
            invariant
                0 <= k <= vn,
                vn == self.voted@.len(),
                forall|j: int|
                    0 <= j < vn ==> 1 <= (#[trigger] self@.voted[j]).len() <= MAX_IDENTITY_LEN,
                out@ == prefix + voted_bytes(self@.voted.take(k as int)),
            decreases vn - k,
        {
            let ghost done = self@.voted.take(k as int);
            out.push(self.voted[k].bytes.len() as u8);
            let mut piece = slice_to_vec(self.voted[k].bytes.as_slice());
            out.append(&mut piece);
            proof {
                lemma_voted_bytes_push(done, self@.voted[k as int]);
                assert(self@.voted.take(k + 1) =~= done.push(self@.voted[k as int]));
                assert(out@ =~= prefix + voted_bytes(self@.voted.take(k + 1)));
            }
            k += 1;
        }
        proof {
            assert(self@.voted.take(vn as int) =~= self@.voted);
            assert(out@ =~= spec_encode(self@));
        }
        Some(out)
    }

    /// Reads a record back from its stored form; `None` exactly when
    /// the bytes are not one whole stored record.
    #[verifier::loop_isolation(false)]
    pub fn from_bytes(bytes: &Vec<u8>) -> (r: Option<Proposal>)
        ensures
            match r {
                Some(p) => spec_decode(bytes@) == Some(p@),
                None => spec_decode(bytes@) is None,
            },
    {
        let len = bytes.len();
        if len < FIXED_PREFIX_LEN {
            return None;
        }
        let id = u64_from_le_bytes(slice_subrange(bytes.as_slice(), 0, 8));
        let approve = u32_from_le_bytes(slice_subrange(bytes.as_slice(), 8, 12));
        let reject = u32_from_le_bytes(slice_subrange(bytes.as_slice(), 12, 16));
        let pass = u32_from_le_bytes(slice_subrange(bytes.as_slice(), 16, 20));
        let act = bytes[20];
        if act != 0 && act != 1 {
            return None;
        }
        let dlen_u32 = u32_from_le_bytes(slice_subrange(bytes.as_slice(), 21, 25));
        let dlen = dlen_u32 as usize;
        assert(dlen == spec_u32_from_le_bytes(bytes@.subrange(21, 25)) as int);
        if dlen > len - FIXED_PREFIX_LEN {
            return None;
        }
        let dend = FIXED_PREFIX_LEN + dlen;
        let description = slice_to_vec(slice_subrange(bytes.as_slice(), FIXED_PREFIX_LEN, dend));
        if dend >= len {
            return None;
        }
        let olen = bytes[dend] as usize;
        if olen < 1 || olen > len - (dend + 1) {
            return None;
        }
        let oend = dend + 1 + olen;
        let owner = Identity { bytes: slice_to_vec(slice_subrange(bytes.as_slice(), dend + 1, oend)) };
        assert(parse_ident(bytes@, dend as int) == Some((owner@, oend as int)));
        if len - oend < 4 {
            return None;
        }
        let start = oend + 4;
        let vcount = u32_from_le_bytes(slice_subrange(bytes.as_slice(), oend, start));
        let mut voted: Vec<Identity> = Vec::new();
        let mut i: usize = start;
        let mut parsed: u32 = 0;
        while parsed < vcount
            invariant
                start <= i <= len,
                len == bytes@.len(),
                parsed <= vcount,
                (match parse_voted(bytes@, i as int, (vcount - parsed) as nat) {
                    Some((rest, end)) => parse_voted(bytes@, start as int, vcount as nat) == Some(
                        (voted_views(voted@) + rest, end),
                    ),
                    None => parse_voted(bytes@, start as int, vcount as nat) is None,
                }),
            decreases vcount - parsed,
        {
            let ghost rem = (vcount - parsed) as nat;
            if i >= len {
                assert(parse_ident(bytes@, i as int) is None);
                assert(parse_voted(bytes@, i as int, rem) is None);
                return None;
            }
            let n = bytes[i] as usize;
            if n < 1 || n > len - (i + 1) {
                assert(parse_ident(bytes@, i as int) is None);
                assert(parse_voted(bytes@, i as int, rem) is None);
                return None;
            }
            let tok = slice_to_vec(slice_subrange(bytes.as_slice(), i + 1, i + 1 + n));
            let ghost old_views = voted_views(voted@);
            voted.push(Identity { bytes: tok });
            proof {
                assert(parse_ident(bytes@, i as int) == Some((tok@, (i + 1 + n) as int)));
                assert(voted_views(voted@) =~= old_views.push(tok@));
                match parse_voted(bytes@, (i + 1 + n) as int, (rem - 1) as nat) {
                    Some((rest2, end2)) => {
                        assert(parse_voted(bytes@, i as int, rem) == Some(
                            (seq![tok@] + rest2, end2),
                        ));
                        assert(old_views + (seq![tok@] + rest2) =~= voted_views(voted@) + rest2);
                    },
                    None => {
                        assert(parse_voted(bytes@, i as int, rem) is None);
                    },
                }
            }
            i = i + 1 + n;
            parsed += 1;
        }
        proof {
            assert(parse_voted(bytes@, i as int, 0) == Some((Seq::<Seq<u8>>::empty(), i as int)));
            assert(voted_views(voted@) + Seq::<Seq<u8>>::empty() =~= voted_views(voted@));
        }
        if i != len {
            return None;
        }
        let p = Proposal { id, description, approve, reject, pass, is_active: act == 1, voted, owner };
        proof {
            let q = spec_decode(bytes@).unwrap();
            assert(q =~= p@);
        }
        Some(p)
    }
}

/// What the shape of the format gives of every decoded record: it is
/// encodable again, its length is exactly the stored length, and each
/// stored voter token takes at least two bytes, which bounds the
/// voter count by half the record length.
pub proof fn lemma_decode_shape(b: Seq<u8>)
    requires
        spec_decode(b) is Some,
    ensures
        ({
            let p = spec_decode(b).unwrap();
            &&& p.ids_valid()
            &&& p.description.len() <= u32::MAX
            &&& p.voted.len() <= u32::MAX
            &&& encodable(p)
            &&& encoded_len(p) == b.len()
            &&& 2 * p.voted.len() + FIXED_PREFIX_LEN <= b.len()
        }),
{
    let p = spec_decode(b).unwrap();
    let dlen = spec_u32_from_le_bytes(b.subrange(21, 25)) as int;
    match parse_ident(b, 25 + dlen) {
        Some((owner, j)) => {
            let vcount = spec_u32_from_le_bytes(b.subrange(j, j + 4));
            lemma_parse_voted_bounds(b, j + 4, vcount as nat);
            assert(owner.len() == b[25 + dlen] as int);
            match parse_voted(b, j + 4, vcount as nat) {
                Some((voted, end)) => {
                    assert(end == b.len());
                    assert(end - (j + 4) == voted_len(voted));
                },
                None => {
                    assert(false);
                },
            }
        },
        None => {
            assert(false);
        },
    }
}

/// Round trip: decoding a stored record gives back exactly the record.
pub proof fn lemma_decode_encode(p: ProposalView)
    requires
        encodable(p),
    ensures
        spec_decode(spec_encode(p)) == Some(p),
{
    lemma_auto_spec_u64_to_from_le_bytes();
    lemma_auto_spec_u32_to_from_le_bytes();
    lemma_voted_bytes_len(p.voted);
    lemma_encode_len(p);
    let b = spec_encode(p);
    let dlen = p.description.len() as int;
    let olen = p.owner.len() as int;
    let head = spec_u64_to_le_bytes(p.id) + spec_u32_to_le_bytes(p.approve)
        + spec_u32_to_le_bytes(p.reject) + spec_u32_to_le_bytes(p.pass) + seq![
        active_byte(p.is_active),
    ] + spec_u32_to_le_bytes(p.description.len() as u32);
    assert(head.len() == 25);
    assert(b.subrange(0, 8) =~= spec_u64_to_le_bytes(p.id));
    assert(b.subrange(8, 12) =~= spec_u32_to_le_bytes(p.approve));
    assert(b.subrange(12, 16) =~= spec_u32_to_le_bytes(p.reject));
    assert(b.subrange(16, 20) =~= spec_u32_to_le_bytes(p.pass));
    assert(b[20] == active_byte(p.is_active));
    assert(b.subrange(21, 25) =~= spec_u32_to_le_bytes(p.description.len() as u32));
    assert(b.subrange(25, 25 + dlen) =~= p.description);
    assert(b[25 + dlen] == p.owner.len() as u8);
    assert(b.subrange(25 + dlen + 1, 25 + dlen + 1 + olen) =~= p.owner);
    assert(parse_ident(b, 25 + dlen) == Some((p.owner, 25 + dlen + 1 + olen)));
    let j = 25 + dlen + 1 + olen;
    assert(b.subrange(j, j + 4) =~= spec_u32_to_le_bytes(p.voted.len() as u32));
    assert(spec_u32_from_le_bytes(b.subrange(j, j + 4)) as int == p.voted.len() as int);
    assert(b.subrange(j + 4, j + 4 + voted_len(p.voted)) =~= voted_bytes(p.voted));
    lemma_parse_voted_encodes(b, j + 4, p.voted);
    assert(j + 4 + voted_len(p.voted) == b.len());
    let q = spec_decode(b).unwrap();
    assert(q.is_active == p.is_active);
    assert(q =~= p);
}

} // verus!
