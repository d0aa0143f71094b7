//! Fragments: the pieces a serialised message travels in, and the
//! conversion between messages and complete fragment groups.
//!
//! A message's byte string is cut into chunks of at most 128 bytes.
//! Every fragment carries its index and the total count of its group,
//! so a group can be rebuilt from fragments in any arrival order.

use vstd::prelude::*;

use crate::codec::{dec_msg, decode_message, enc_msg, encode_message, fits_u64, lemma_msg_roundtrip,
    msg_wf};
use crate::message::{clone_bytes, Message, MsgModel};
use vstd::arithmetic::div_mod::{lemma_fundamental_div_mod, lemma_mod_bound};

verus! {

/// Mathematical value of a [`Fragment`].
pub struct FragmentModel {
    pub fragment_index: u64,
    pub total_n_fragments: u64,
    pub data: Seq<u8>,
}

/// One piece of a serialised message: its position in the group, the
/// size of the group, and up to 128 payload bytes.
#[derive(PartialEq, Eq, Debug)]
pub struct Fragment {
    pub fragment_index: u64,
    pub total_n_fragments: u64,
    pub data: Vec<u8>,
}

impl View for Fragment {
    type V = FragmentModel;

    open spec fn view(&self) -> FragmentModel {
        FragmentModel {
            fragment_index: self.fragment_index,
            total_n_fragments: self.total_n_fragments,
            data: self.data@,
        }
    }
}

impl Clone for Fragment {
    fn clone(&self) -> (r: Fragment)
        ensures
            r@ == self@,
    {
        Fragment {
            fragment_index: self.fragment_index,
            total_n_fragments: self.total_n_fragments,
            data: clone_bytes(&self.data),
        }
    }
}

/// View of a vector of fragments as a sequence of their models.
pub open spec fn frags_view(fs: Seq<Fragment>) -> Seq<FragmentModel> {
    fs.map_values(|f: Fragment| f@)
}

/// Number of fragments a byte string of this length is cut into.
pub open spec fn frag_count(b: Seq<u8>) -> int {
    if b.len() == 0 {
        0
    } else {
        (b.len() - 1) / 128 + 1
    }
}

/// The `i`-th chunk of at most 128 bytes.
pub open spec fn chunk(b: Seq<u8>, i: int) -> Seq<u8>
    recommends
        0 <= i < frag_count(b),
{
    if (i + 1) * 128 <= b.len() {
        b.subrange(i * 128, (i + 1) * 128)
    } else {
        b.subrange(i * 128, b.len() as int)
    }
}

/// The fragment group a byte string is cut into: chunk `i` under
/// index `i`, every fragment stamped with the total count.
pub open spec fn frags_of(b: Seq<u8>) -> Seq<FragmentModel> {
    Seq::new(
        frag_count(b) as nat,
        |i: int|
            FragmentModel {
                fragment_index: i as u64,
                total_n_fragments: frag_count(b) as u64,
                data: chunk(b, i),
            },
    )
}

/// No two fragments of the group claim the same index.
pub open spec fn indices_unique(fs: Seq<FragmentModel>) -> bool {
    forall|a: int, c: int|
        0 <= a < fs.len() && 0 <= c < fs.len() && a != c ==> #[trigger] fs[a].fragment_index
            != #[trigger] fs[c].fragment_index
}

/// Some fragment of the group carries index `j`.
pub open spec fn has_index(fs: Seq<FragmentModel>, j: int) -> bool {
    exists|k: int| 0 <= k < fs.len() && #[trigger] fs[k].fragment_index == j
}

/// A complete group: non-empty, every fragment stamped with the
/// group's size, indices pairwise distinct, and every index `0..n`
/// present.
pub open spec fn group_valid(fs: Seq<FragmentModel>) -> bool {
    &&& fs.len() >= 1
    &&& forall|k: int| 0 <= k < fs.len() ==> #[trigger] fs[k].total_n_fragments == fs.len()
    &&& indices_unique(fs)
    &&& forall|j: int| 0 <= j < fs.len() ==> has_index(fs, j)
}

/// The fragment of the group that carries index `j`.
pub open spec fn frag_with_index(fs: Seq<FragmentModel>, j: int) -> FragmentModel
    recommends
        has_index(fs, j),
{
    fs[choose|k: int| 0 <= k < fs.len() && fs[k].fragment_index == j]
}

/// Payloads of the group in index order, from index `j` on.
pub open spec fn concat_frags(fs: Seq<FragmentModel>, j: int) -> Seq<u8>
    decreases fs.len() - j,
{
    if j < 0 || j >= fs.len() {
        Seq::empty()
    } else {
        frag_with_index(fs, j).data + concat_frags(fs, j + 1)
    }
}

/// The byte string a complete group reassembles to, if the group is
/// valid.
pub open spec fn assemble(fs: Seq<FragmentModel>) -> Option<Seq<u8>> {
    if group_valid(fs) {
        Some(concat_frags(fs, 0))
    } else {
        None
    }
}

/// The message a fragment group decodes to: reassemble the bytes,
/// then parse them.
pub open spec fn from_frags_spec(fs: Seq<FragmentModel>) -> Option<MsgModel> {
    match assemble(fs) {
        None => None,
        Some(b) => dec_msg(b),
    }
}

/// A message's encoding is never empty: it starts with its tag byte.
pub proof fn lemma_enc_msg_nonempty(m: MsgModel)
    ensures
        enc_msg(m).len() >= 1,
{
}

proof fn lemma_concat_frags_of(b: Seq<u8>, j: int)
    requires
        b.len() >= 1,
        fits_u64(frag_count(b) as nat),
        0 <= j < frag_count(b),
    ensures
        concat_frags(frags_of(b), j) == b.skip(j * 128),
    decreases frag_count(b) - j,
{
    let fs = frags_of(b);
    let n = frag_count(b);
    assert(fs.len() == n);
    // The witness chosen for index j can only be position j.
    assert(fs[j].fragment_index == j as u64);
    let k = choose|k: int| 0 <= k < fs.len() && fs[k].fragment_index == j;
    assert(fs[k].fragment_index == k as u64);
    assert(k as u64 == j as u64);
    assert(k == j);
    assert(frag_with_index(fs, j) == fs[j]);
    lemma_fundamental_div_mod(b.len() - 1, 128);
    lemma_mod_bound(b.len() - 1, 128);
    if j == n - 1 {
        assert(concat_frags(fs, j + 1) =~= Seq::<u8>::empty());
        assert((j + 1) * 128 > b.len() - 1);
        assert(chunk(b, j) == b.subrange(j * 128, b.len() as int));
        assert(chunk(b, j) + Seq::<u8>::empty() =~= b.skip(j * 128));
    } else {
        lemma_concat_frags_of(b, j + 1);
        assert((j + 1) * 128 <= b.len());
        assert(chunk(b, j) == b.subrange(j * 128, (j + 1) * 128));
        assert(chunk(b, j) + b.skip((j + 1) * 128) =~= b.skip(j * 128));
    }
}

/// Cutting a message into fragments and reassembling the complete
/// group yields the original message: encoding is a function and
/// reassembly undoes it, so re-fragmenting the decoded message gives
/// the very same fragments.
pub proof fn lemma_fragment_roundtrip(m: MsgModel)
    requires
        msg_wf(m),
        fits_u64(enc_msg(m).len()),
    ensures
        from_frags_spec(frags_of(enc_msg(m))) == Some(m),
{
    let b = enc_msg(m);
    lemma_enc_msg_nonempty(m);
    let n = frag_count(b);
    lemma_fundamental_div_mod(b.len() - 1, 128);
    lemma_mod_bound(b.len() - 1, 128);
    assert(1 <= n);
    assert(n <= b.len());
    let fs = frags_of(b);
    assert(forall|k: int| 0 <= k < fs.len() ==> #[trigger] fs[k].total_n_fragments == fs.len());
    assert(indices_unique(fs)) by {
        assert(forall|a: int, c: int|
            0 <= a < fs.len() && 0 <= c < fs.len() && a != c ==> #[trigger] fs[a].fragment_index
                != #[trigger] fs[c].fragment_index);
    }
    assert forall|j: int| 0 <= j < fs.len() implies has_index(fs, j) by {
        assert(fs[j].fragment_index == j as u64);
        assert(j < 0x1_0000_0000_0000_0000);
        assert(fs[j].fragment_index == j);
    }
    assert(group_valid(fs));
    lemma_concat_frags_of(b, 0);
    assert(b.skip(0) =~= b);
    assert(assemble(fs) == Some(b));
    lemma_msg_roundtrip(m);
}

impl Message {
    /// Serialise this message and cut the bytes into its ordered
    /// fragment group.
    pub fn into_fragments(self) -> (r: Vec<Fragment>)
        ensures
            frags_view(r@) == frags_of(enc_msg(self@)),
    {
        let bytes = encode_message(&self);
        let n = bytes.len();
        proof {
            lemma_enc_msg_nonempty(self@);
            lemma_fundamental_div_mod(n as int - 1, 128);
            lemma_mod_bound(n as int - 1, 128);
        }
        let count = (n - 1) / 128 + 1;
        proof {
            assert(count == frag_count(bytes@));
            assert(count <= n);
        }
        let mut out: Vec<Fragment> = Vec::new();
        let mut i: usize = 0;
        let mut pos: usize = 0;
        while i < count
            invariant
                bytes@ == enc_msg(self@),
                n == bytes@.len(),
                1 <= count <= n,
                count == frag_count(bytes@),
                i <= count,
                pos == i * 128 || (i == count && pos == n),
                pos <= n,
                out@.len() == i,
                forall|k: int| 0 <= k < i as int ==> #[trigger] out@[k]@ == frags_of(bytes@)[k],
            decreases count - i,
        {
            proof {
                assert(pos == i * 128) by {
                    if i == count {
                        assert(false);
                    }
                }
            }
            let end = if n - pos >= 128 {
                pos + 128
            } else {
                n
            };
            let mut data: Vec<u8> = Vec::new();
            let mut t: usize = pos;
            while t < end
                invariant
                    pos <= t <= end,
                    end <= n,
                    n == bytes@.len(),
                    data@ == bytes@.subrange(pos as int, t as int),
                decreases end - t,
            {
                data.push(bytes[t]);
                proof {
                    assert(bytes@.subrange(pos as int, t as int) + seq![bytes@[t as int]]
                        =~= bytes@.subrange(pos as int, t as int + 1));
                }
                t = t + 1;
            }
            proof {
                assert(data@ == chunk(bytes@, i as int)) by {
                    if (i as int + 1) * 128 <= n as int {
                        assert(end == pos + 128);
                    } else {
                        assert(end == n);
                    }
                }
            }
            out.push(
                Fragment {
                    fragment_index: i as u64,
                    total_n_fragments: count as u64,
                    data,
                },
            );
            proof {
                assert(out@[i as int]@ == frags_of(bytes@)[i as int]);
                // The next chunk starts where this one ended.
                if i as int + 1 < count {
                    lemma_fundamental_div_mod(n as int - 1, 128);
                    lemma_mod_bound(n as int - 1, 128);
                    assert((i as int + 1) * 128 <= n as int);
                    assert(end == (i as int + 1) * 128);
                } else {
                    assert(end == n) by {
                        if (i as int + 1) * 128 < n as int {
                            lemma_fundamental_div_mod(n as int - 1, 128);
                            lemma_mod_bound(n as int - 1, 128);
                            assert(frag_count(bytes@) > i as int + 1);
                            assert(false);
                        }
                    }
                }
            }
            pos = end;
            i = i + 1;
        }
        proof {
            assert(frags_view(out@) =~= frags_of(bytes@));
        }
        out
    }

    /// Rebuild a message from a complete fragment group, in any
    /// arrival order.  Fails if the group is incomplete, inconsistent,
    /// or its bytes do not parse.
    pub fn from_fragments(fragments: Vec<Fragment>) -> (r: Option<Message>)
        ensures
            match r {
                Some(m) => from_frags_spec(frags_view(fragments@)) == Some(m@),
                None => from_frags_spec(frags_view(fragments@)) is None,
            },
    {
        let ghost fsv = frags_view(fragments@);
        let n = fragments.len();
        if n == 0 {
            return None;
        }
        // Every fragment must be stamped with the group's size.
        let mut k: usize = 0;
        while k < n
            invariant
                n == fragments@.len(),
                fsv == frags_view(fragments@),
                k <= n,
                forall|k2: int| 0 <= k2 < k as int ==> #[trigger] fsv[k2].total_n_fragments == n,
            decreases n - k,
        {
            if fragments[k].total_n_fragments != n as u64 {
                proof {
                    assert(fsv[k as int].total_n_fragments != n);
                    assert(!group_valid(fsv));
                }
                return None;
            }
            k = k + 1;
        }
        // Indices must be pairwise distinct.
        let mut a: usize = 0;
        while a < n
            invariant
                n == fragments@.len(),
                fsv == frags_view(fragments@),
                a <= n,
                forall|x: int, y: int|
                    0 <= x < a as int && x < y < n ==> #[trigger] fsv[x].fragment_index
                        != #[trigger] fsv[y].fragment_index,
            decreases n - a,
        {
            let mut c: usize = a + 1;
            while c < n
                invariant
                    n == fragments@.len(),
                    fsv == frags_view(fragments@),
                    a < n,
                    a + 1 <= c <= n,
                    forall|y: int|
                        (a as int) < y && y < (c as int) ==> #[trigger] fsv[y].fragment_index
                            != fsv[a as int].fragment_index,
                decreases n - c,
            {
                if fragments[a].fragment_index == fragments[c].fragment_index {
                    proof {
                        assert(fsv[a as int].fragment_index == fsv[c as int].fragment_index);
                        assert(!indices_unique(fsv));
                        assert(!group_valid(fsv));
                    }
                    return None;
                }
                c = c + 1;
            }
            a = a + 1;
        }
        proof {
            assert(indices_unique(fsv));
        }
        // Collect the payloads in index order.
        let mut bytes: Vec<u8> = Vec::new();
        let mut j: usize = 0;
        while j < n
            invariant
                n == fragments@.len(),
                fsv == frags_view(fragments@),
                indices_unique(fsv),
                forall|k2: int| 0 <= k2 < n as int ==> #[trigger] fsv[k2].total_n_fragments == n,
                j <= n,
                forall|j2: int| 0 <= j2 < j as int ==> has_index(fsv, j2),
                concat_frags(fsv, 0) == bytes@ + concat_frags(fsv, j as int),
            decreases n - j,
        {
            // Find the fragment that carries index j.
            let mut k2: usize = 0;
            let mut found: bool = false;
            while k2 < n && !found
                invariant
                    n == fragments@.len(),
                    fsv == frags_view(fragments@),
                    k2 <= n,
                    !found ==> forall|x: int|
                        0 <= x < k2 as int ==> #[trigger] fsv[x].fragment_index != j as u64,
                    found ==> k2 < n && fsv[k2 as int].fragment_index == j as u64,
                decreases n - k2, (if found { 0int } else { 1int }),
            {
                if fragments[k2].fragment_index == j as u64 {
                    found = true;
                } else {
                    k2 = k2 + 1;
                }
            }
            if !found {
                proof {
                    assert(!has_index(fsv, j as int));
                    assert(!group_valid(fsv));
                }
                return None;
            }
            proof {
                assert(has_index(fsv, j as int));
                let kc = choose|x: int|
                    0 <= x < fsv.len() && fsv[x].fragment_index == j as int;
                assert(fsv[kc].fragment_index == j as u64);
                assert(kc == k2 as int);
                assert(frag_with_index(fsv, j as int) == fsv[k2 as int]);
                assert(concat_frags(fsv, j as int) == fsv[k2 as int].data + concat_frags(
                    fsv,
                    j as int + 1,
                ));
            }
            let ghost old_bytes = bytes@;
            let mut t: usize = 0;
            let flen = fragments[k2].data.len();
            while t < flen
                invariant
                    n == fragments@.len(),
                    fsv == frags_view(fragments@),
                    k2 < n,
                    flen == fsv[k2 as int].data.len(),
                    t <= flen,
                    bytes@ == old_bytes + fsv[k2 as int].data.subrange(0, t as int),
                decreases flen - t,
            {
                bytes.push(fragments[k2].data[t]);
                proof {
                    assert(old_bytes + fsv[k2 as int].data.subrange(0, t as int) + seq![
                        fsv[k2 as int].data[t as int],
                    ] =~= old_bytes + fsv[k2 as int].data.subrange(0, t as int + 1));
                }
                t = t + 1;
            }
            proof {
                assert(fsv[k2 as int].data.subrange(0, fsv[k2 as int].data.len() as int)
                    =~= fsv[k2 as int].data);
                assert(old_bytes + (fsv[k2 as int].data + concat_frags(fsv, j as int + 1))
                    =~= (old_bytes + fsv[k2 as int].data) + concat_frags(fsv, j as int + 1));
            }
            j = j + 1;
        }
        proof {
            assert(group_valid(fsv));
            assert(concat_frags(fsv, n as int) =~= Seq::<u8>::empty());
            assert(bytes@ + Seq::<u8>::empty() =~= bytes@);
            assert(assemble(fsv) == Some(bytes@));
        }
        decode_message(&bytes)
    }
}

} // verus!
