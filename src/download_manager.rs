use vstd::prelude::*;
use crate::BLOCK_SIZE;
use crate::bitfield::{Bitfield, bytes_for, zeros};
use crate::metainfo::{Info, Torrent, expected_hash, expected_length, piece_count};

verus! {

/// Number of blocks that cover `len` bytes.
pub open spec fn block_count(len: nat) -> nat {
    if len % (BLOCK_SIZE as nat) == 0 {
        len / (BLOCK_SIZE as nat)
    } else {
        len / (BLOCK_SIZE as nat) + 1
    }
}

/// The blocks of a piece, joined in order.
pub open spec fn concat_blocks(blocks: Seq<Seq<u8>>) -> Seq<u8>
    decreases blocks.len(),
{
    if blocks.len() == 0 {
        Seq::empty()
    } else {
        concat_blocks(blocks.drop_last()) + blocks.last()
    }
}

/// A block after a received reply was copied over its start: the reply's
/// bytes where they reach, the block's own bytes after that.
pub open spec fn overlay(block: Seq<u8>, data: Seq<u8>) -> Seq<u8> {
    Seq::new(block.len(), |j: int| if j < data.len() { data[j] } else { block[j] })
}

/// The blocks of a piece being fetched.
pub struct PieceProgress {
    pub index: u64,
    pub blocks: Vec<Vec<u8>>,
}

impl PieceProgress {
    /// The blocks as byte sequences.
    pub open spec fn blocks_view(&self) -> Seq<Seq<u8>> {
        self.blocks@.map_values(|b: Vec<u8>| b@)
    }

    /// Every block holds exactly one block size of bytes.
    pub open spec fn wf(&self) -> bool {
        forall|k: int|
            0 <= k < self.blocks@.len() ==> (#[trigger] self.blocks@[k])@.len() == BLOCK_SIZE
    }

    /// The joined blocks cut to the piece's length: the bytes to hash and store.
    pub open spec fn data(&self, len: nat) -> Seq<u8> {
        let all = concat_blocks(self.blocks_view());
        if len <= all.len() {
            all.take(len as int)
        } else {
            all
        }
    }

    /// An empty piece of `piece_length` bytes: enough zeroed blocks to cover it.
    pub fn new(index: u64, piece_length: u64) -> (r: Self)
        ensures
            r.index == index,
            r.wf(),
            r.blocks_view() == Seq::new(
                block_count(piece_length as nat),
                |k: int| zeros(BLOCK_SIZE as nat),
            ),
    {
        let count: u64 = if piece_length % BLOCK_SIZE == 0 {
            piece_length / BLOCK_SIZE
        } else {
            piece_length / BLOCK_SIZE + 1
        };
        let mut blocks: Vec<Vec<u8>> = Vec::new();
        let mut k: u64 = 0;
        while k < count
            invariant
                k <= count,
                blocks@.len() == k,
                forall|j: int| 0 <= j < k ==> (#[trigger] blocks@[j])@ == zeros(BLOCK_SIZE as nat),
            decreases count - k,
        {
            let block: Vec<u8> = vec![0u8; BLOCK_SIZE as usize];
            assert(block@ =~= zeros(BLOCK_SIZE as nat));
            blocks.push(block);
            k = k + 1;
        }
        let r = PieceProgress { index, blocks };
        assert(r.blocks_view() =~= Seq::new(
            block_count(piece_length as nat),
            |k: int| zeros(BLOCK_SIZE as nat),
        ));
        r
    }

    /// The joined blocks, cut to `len` bytes when they hold more.
    pub fn bytes(&self, len: u64) -> (r: Vec<u8>)
        ensures
            r@ == self.data(len as nat),
    {
        let mut out: Vec<u8> = Vec::new();
        let mut k: usize = 0;
        while k < self.blocks.len()
            invariant
                k <= self.blocks@.len(),
                out@ == concat_blocks(self.blocks_view().take(k as int)),
            decreases self.blocks@.len() - k,
        {
            crate::message::push_all(&mut out, self.blocks[k].as_slice());
            proof {
                let t = self.blocks_view().take(k as int + 1);
                assert(t.drop_last() =~= self.blocks_view().take(k as int));
            }
            k = k + 1;
        }
        assert(self.blocks_view().take(k as int) =~= self.blocks_view());
        if len < out.len() as u64 {
            out.truncate(len as usize);
            assert(out@ =~= self.data(len as nat));
        }
        out
    }
}

} // verus!

verus! {

/// The SHA-1 digest of a byte sequence.
pub uninterp spec fn sha1_of(data: Seq<u8>) -> Seq<u8>;

/// Relies on sha1's `Sha1::digest`: the SHA-1 digest of the bytes, whose
/// output size is 20 bytes.
#[verifier::external_body]
pub(crate) fn sha1_digest(data: &[u8]) -> (r: Vec<u8>)
    ensures
        r@ == sha1_of(data@),
        r@.len() == 20,
{
    <sha1::Sha1 as sha1::Digest>::digest(data).to_vec()
}

/// A file holding `file` after `data` was written at `offset`; a write past
/// the end extends the file, with zeros in any gap.
pub open spec fn write_at(file: Seq<u8>, offset: int, data: Seq<u8>) -> Seq<u8> {
    let len = if file.len() < offset + data.len() {
        offset + data.len()
    } else {
        file.len() as int
    };
    Seq::new(
        len as nat,
        |k: int|
            if offset <= k < offset + data.len() {
                data[k - offset]
            } else if k < file.len() {
                file[k]
            } else {
                0u8
            },
    )
}

/// Writing piece `j` after piece `i` leaves piece `i`'s bytes in place, and
/// the bytes of every other piece's range as the file had them: pieces sit
/// at `index * piece_length` and never overlap.
pub proof fn lemma_commits_disjoint(
    file: Seq<u8>,
    piece_length: int,
    i: int,
    di: Seq<u8>,
    j: int,
    dj: Seq<u8>,
)
    requires
        0 <= i,
        0 <= j,
        i != j,
        di.len() <= piece_length,
        dj.len() <= piece_length,
    ensures
        ({
            let after = write_at(write_at(file, i * piece_length, di), j * piece_length, dj);
            &&& after.subrange(i * piece_length, i * piece_length + di.len()) == di
            &&& after.subrange(j * piece_length, j * piece_length + dj.len()) == dj
            &&& forall|k: int|
                0 <= k < file.len() && !(i * piece_length <= k < i * piece_length + di.len()) && !(j
                    * piece_length <= k < j * piece_length + dj.len()) ==> #[trigger] after[k]
                    == file[k]
        }),
{
    let a = i * piece_length;
    let b = j * piece_length;
    if i < j {
        assert(a + piece_length <= b) by (nonlinear_arith)
            requires
                0 <= piece_length,
                i < j,
                a == i * piece_length,
                b == j * piece_length,
        ;
    } else {
        assert(b + piece_length <= a) by (nonlinear_arith)
            requires
                0 <= piece_length,
                j < i,
                a == i * piece_length,
                b == j * piece_length,
        ;
    }
    let first = write_at(file, a, di);
    let after = write_at(first, b, dj);
    assert(after.subrange(a, a + di.len()) =~= di);
    assert(after.subrange(b, b + dj.len()) =~= dj);
}

/// Blocks of one block size each join to that many block sizes of bytes.
proof fn lemma_concat_len(blocks: Seq<Seq<u8>>)
    requires
        forall|m: int| 0 <= m < blocks.len() ==> (#[trigger] blocks[m]).len() == BLOCK_SIZE,
    ensures
        concat_blocks(blocks).len() == blocks.len() * BLOCK_SIZE,
    decreases blocks.len(),
{
    if blocks.len() > 0 {
        lemma_concat_len(blocks.drop_last());
    }
}

/// Byte `j` of block `k` sits at `k * BLOCK_SIZE + j` in the joined blocks.
proof fn lemma_concat_index(blocks: Seq<Seq<u8>>, k: int, j: int)
    requires
        forall|m: int| 0 <= m < blocks.len() ==> (#[trigger] blocks[m]).len() == BLOCK_SIZE,
        0 <= k < blocks.len(),
        0 <= j < BLOCK_SIZE,
    ensures
        concat_blocks(blocks)[k * BLOCK_SIZE + j] == blocks[k][j],
    decreases blocks.len(),
{
    let init = blocks.drop_last();
    lemma_concat_len(init);
    if k < blocks.len() - 1 {
        lemma_concat_index(init, k, j);
    }
}

/// Changing one byte that lies inside a piece's expected length changes the
/// bytes that are hashed, so a piece whose bytes verified is rejected after
/// the change whenever the two digests differ: a correct prefix earns nothing.
pub proof fn lemma_changed_byte_rejected(
    info: Info,
    p: PieceProgress,
    q: PieceProgress,
    k: int,
    j: int,
    v: u8,
)
    requires
        p.wf(),
        0 <= k < p.blocks@.len(),
        0 <= j < BLOCK_SIZE,
        v != p.blocks_view()[k][j],
        q.blocks_view() == p.blocks_view().update(k, p.blocks_view()[k].update(j, v)),
        k * BLOCK_SIZE + j < expected_length(info, p.index as nat),
    ensures
        ({
            let len = expected_length(info, p.index as nat);
            &&& q.data(len) != p.data(len)
            &&& sha1_of(p.data(len)) == expected_hash(info, p.index as nat) && sha1_of(q.data(len))
                != sha1_of(p.data(len)) ==> sha1_of(q.data(len)) != expected_hash(
                info,
                p.index as nat,
            )
        }),
{
    let len = expected_length(info, p.index as nat);
    let pb = p.blocks_view();
    let qb = q.blocks_view();
    assert forall|m: int| 0 <= m < pb.len() implies (#[trigger] pb[m]).len() == BLOCK_SIZE by {
        assert(p.blocks@[m]@.len() == BLOCK_SIZE);
    }
    assert forall|m: int| 0 <= m < qb.len() implies (#[trigger] qb[m]).len() == BLOCK_SIZE by {
        if m != k {
            assert(qb[m] == pb[m]);
        }
    }
    let at = k * BLOCK_SIZE + j;
    lemma_concat_index(pb, k, j);
    lemma_concat_index(qb, k, j);
    lemma_concat_len(pb);
    lemma_concat_len(qb);
    assert(p.data(len)[at] != q.data(len)[at]);
}

/// A verified piece and where it goes in the output file.
pub struct PieceWrite {
    pub offset: u64,
    pub data: Vec<u8>,
}

/// A piece handed to a worker together with the peer it fetches from.
pub struct Assignment {
    pub piece: PieceProgress,
    pub peer: crate::tracker_communication::PeerInfo,
}

/// The coordinator's state: the descriptor, the pieces not yet handed out,
/// and the pieces verified and stored.
pub struct DownloadManager {
    pub torrent: Torrent,
    pub work_queue: Vec<PieceProgress>,
    pub pieces: Bitfield,
}

impl DownloadManager {
    /// The completion bitmap covers every piece, and every piece offset fits
    /// in 64 bits.
    pub open spec fn wf(&self) -> bool {
        &&& self.pieces@.len() >= piece_count(self.torrent.info)
        &&& piece_count(self.torrent.info) * self.torrent.info.piece_length <= u64::MAX
    }

    /// A coordinator for `torrent`: one queue entry per piece, in index
    /// order and sized to the nominal piece length, and no piece complete.
    pub fn from(torrent: Torrent) -> (r: Self)
        requires
            piece_count(torrent.info) * torrent.info.piece_length <= u64::MAX,
        ensures
            r.wf(),
            r.torrent == torrent,
            r.work_queue@.len() == piece_count(torrent.info),
            forall|k: int|
                0 <= k < r.work_queue@.len() ==> (#[trigger] r.work_queue@[k]).index == k
                    && r.work_queue@[k].wf() && r.work_queue@[k].blocks_view() == Seq::new(
                    block_count(torrent.info.piece_length as nat),
                    |b: int| zeros(BLOCK_SIZE as nat),
                ),
            r.pieces.0@ == zeros(bytes_for(piece_count(torrent.info))),
            forall|i: int| 0 <= i < r.pieces@.len() ==> !#[trigger] r.pieces@[i],
    {
        let count = torrent.info.piece_count();
        let mut work_queue: Vec<PieceProgress> = Vec::new();
        let mut k: usize = 0;
        while k < count
            invariant
                k <= count,
                count == piece_count(torrent.info),
                work_queue@.len() == k,
                forall|j: int|
                    0 <= j < k ==> (#[trigger] work_queue@[j]).index == j && work_queue@[j].wf()
                        && work_queue@[j].blocks_view() == Seq::new(
                        block_count(torrent.info.piece_length as nat),
                        |b: int| zeros(BLOCK_SIZE as nat),
                    ),
            decreases count - k,
        {
            work_queue.push(PieceProgress::new(k as u64, torrent.info.piece_length));
            k = k + 1;
        }
        let pieces = Bitfield::empty(count);
        DownloadManager { torrent, work_queue, pieces }
    }

    /// Whether `digest` is the recorded hash of piece `index`.
    pub fn digest_matches(&self, index: u64, digest: &[u8]) -> (r: bool)
        requires
            index < piece_count(self.torrent.info),
        ensures
            r == (digest@ == expected_hash(self.torrent.info, index as nat)),
    {
        let hashes = &self.torrent.info.pieces;
        let len = hashes.len();
        assert(index * 20 + 20 <= len);
        let start = (index as usize) * 20;
        if digest.len() != 20 {
            return false;
        }
        let mut k: usize = 0;
        while k < 20
            invariant
                k <= 20,
                digest@.len() == 20,
                start + 20 <= len,
                len == hashes@.len(),
                hashes@ == self.torrent.info.pieces@,
                start == index * 20,
                forall|j: int| 0 <= j < k ==> digest@[j] == hashes@[start + j],
            decreases 20 - k,
        {
            if digest[k] != hashes[start + k] {
                assert(digest@[k as int] != expected_hash(self.torrent.info, index as nat)[k as int]);
                assert(digest@ != expected_hash(self.torrent.info, index as nat));
                return false;
            }
            k = k + 1;
        }
        assert(digest@ =~= expected_hash(self.torrent.info, index as nat));
        true
    }

    /// Whether the piece's bytes, cut to its expected length, hash to the
    /// recorded hash of its index.
    pub fn verify_piece(&self, piece: &PieceProgress) -> (r: bool)
        requires
            piece.index < piece_count(self.torrent.info),
        ensures
            r == (sha1_of(piece.data(expected_length(self.torrent.info, piece.index as nat)))
                == expected_hash(self.torrent.info, piece.index as nat)),
    {
        let size = self.torrent.info.piece_size(piece.index);
        let data = piece.bytes(size);
        let digest = sha1_digest(data.as_slice());
        self.digest_matches(piece.index, digest.as_slice())
    }

    /// Accepts a fetched piece: when it verifies, gives the bytes to store
    /// and their file offset; otherwise `None`. The piece is recorded as
    /// complete only once it is stored, by [`DownloadManager::mark_committed`].
    pub fn submit_piece(&self, piece: PieceProgress) -> (r: Option<PieceWrite>)
        requires
            self.wf(),
            piece.index < piece_count(self.torrent.info),
        ensures
            r is Some <==> sha1_of(piece.data(expected_length(self.torrent.info, piece.index as nat)))
                == expected_hash(self.torrent.info, piece.index as nat),
            r is Some ==> {
                &&& r->Some_0.offset == piece.index * self.torrent.info.piece_length
                &&& r->Some_0.data@ == piece.data(
                    expected_length(self.torrent.info, piece.index as nat),
                )
            },
    {
        if !self.verify_piece(&piece) {
            return None;
        }
        let index = piece.index;
        let nominal = self.torrent.info.piece_length;
        proof {
            let count = piece_count(self.torrent.info);
            assert(index as int * nominal as int <= count * nominal as int) by (nonlinear_arith)
                requires
                    index < count,
            ;
        }
        let size = self.torrent.info.piece_size(index);
        let data = piece.bytes(size);
        Some(PieceWrite { offset: index * nominal, data })
    }

    /// Records piece `index` as complete, once its bytes were stored.
    pub fn mark_committed(&mut self, index: u64)
        requires
            old(self).wf(),
            index < piece_count(old(self).torrent.info),
        ensures
            final(self).wf(),
            final(self).pieces@ == old(self).pieces@.update(index as int, true),
            final(self).torrent == old(self).torrent,
            final(self).work_queue == old(self).work_queue,
    {
        let count = self.torrent.info.piece_count();
        assert(index < count);
        let at = index as usize;
        self.pieces.set_piece(&at);
    }

    /// Pairs queued pieces with peers for up to `workers` workers, taking
    /// both from the back of their lists, as long as both have entries left.
    pub fn assign_work(&mut self, peers: &mut Vec<crate::tracker_communication::PeerInfo>, workers: usize) -> (r: Vec<Assignment>)
        ensures
            r@.len() == vstd::math::min(
                workers as int,
                vstd::math::min(old(self).work_queue@.len() as int, old(peers)@.len() as int),
            ),
            final(self).work_queue@ == old(self).work_queue@.take(
                old(self).work_queue@.len() - r@.len(),
            ),
            final(peers)@ == old(peers)@.take(old(peers)@.len() - r@.len()),
            forall|k: int|
                0 <= k < r@.len() ==> (#[trigger] r@[k]).piece == old(self).work_queue@[old(
                    self,
                ).work_queue@.len() - 1 - k] && r@[k].peer == old(peers)@[old(peers)@.len() - 1
                    - k],
            final(self).torrent == old(self).torrent,
            final(self).pieces == old(self).pieces,
    {
        let mut assigned: Vec<Assignment> = Vec::new();
        while assigned.len() < workers && self.work_queue.len() > 0 && peers.len() > 0
            invariant
                assigned@.len() <= workers,
                assigned@.len() <= old(self).work_queue@.len(),
                assigned@.len() <= old(peers)@.len(),
                self.work_queue@ == old(self).work_queue@.take(
                    old(self).work_queue@.len() - assigned@.len(),
                ),
                peers@ == old(peers)@.take(old(peers)@.len() - assigned@.len()),
                forall|k: int|
                    0 <= k < assigned@.len() ==> (#[trigger] assigned@[k]).piece == old(
                        self,
                    ).work_queue@[old(self).work_queue@.len() - 1 - k] && assigned@[k].peer == old(
                        peers,
                    )@[old(peers)@.len() - 1 - k],
                self.torrent == old(self).torrent,
                self.pieces == old(self).pieces,
            decreases workers - assigned@.len(),
        {
            let piece = self.work_queue.pop().unwrap();
            let peer = peers.pop().unwrap();
            assigned.push(Assignment { piece, peer });
            assert(self.work_queue@ =~= old(self).work_queue@.take(
                old(self).work_queue@.len() - assigned@.len(),
            ));
            assert(peers@ =~= old(peers)@.take(old(peers)@.len() - assigned@.len()));
        }
        assigned
    }
}

} // verus!
