use vstd::prelude::*;

verus! {

/// One file of a multi-file descriptor.
#[derive(Debug, Clone)]
pub struct File {
    pub path: Vec<String>,
    pub length: i64,
    pub md5sum: Option<String>,
}

/// The part of a descriptor that names the content: its name, piece size
/// and the 20-byte hash of every piece, concatenated.
#[derive(Debug, Clone)]
pub struct Info {
    pub name: String,
    pub pieces: Vec<u8>,
    pub piece_length: u64,
    pub md5sum: Option<String>,
    pub length: Option<i64>,
    pub files: Option<Vec<File>>,
    pub private: Option<u8>,
    pub path: Option<Vec<String>>,
    pub root_hash: Option<String>,
}

/// A whole transfer descriptor.
#[derive(Debug)]
pub struct Torrent {
    pub info: Info,
    pub announce: Option<String>,
    pub encoding: Option<String>,
    pub http_seeds: Option<Vec<String>>,
    pub announce_list: Option<Vec<Vec<String>>>,
    pub creation_date: Option<i64>,
    pub comment: Option<String>,
    pub created_by: Option<String>,
}

/// Number of pieces: one per 20 bytes of the hash list.
pub open spec fn piece_count(info: Info) -> nat {
    info.pieces@.len() / 20
}

/// The expected length of piece `index`: the nominal piece length, except
/// for the last piece of a single file whose total length ends inside it.
pub open spec fn expected_length(info: Info, index: nat) -> nat {
    let nominal = info.piece_length as nat;
    match info.length {
        Some(total) => if index + 1 == piece_count(info) && index * nominal < total && total <= (
        index + 1) * nominal {
            (total - index * nominal) as nat
        } else {
            nominal
        },
        None => nominal,
    }
}

/// The recorded hash of piece `index`.
pub open spec fn expected_hash(info: Info, index: nat) -> Seq<u8> {
    info.pieces@.subrange(index * 20 as int, index * 20 + 20 as int)
}

/// The content identifier: the SHA-1 digest of the encoded info section.
pub fn info_hash(info_bytes: &[u8]) -> (r: Vec<u8>)
    ensures
        r@ == crate::download_manager::sha1_of(info_bytes@),
        r@.len() == 20,
{
    crate::download_manager::sha1_digest(info_bytes)
}

impl Info {
    /// Number of pieces of the content.
    pub fn piece_count(&self) -> (r: usize)
        ensures
            r == piece_count(*self),
    {
        self.pieces.len() / 20
    }

    /// The length of piece `index`; the last piece may be shorter than the
    /// others.
    pub fn piece_size(&self, index: u64) -> (r: u64)
        ensures
            r == expected_length(*self, index as nat),
    {
        let nominal = self.piece_length;
        match self.length {
            Some(total) => {
                assert(index as int * nominal as int + nominal as int
                    <= 0xffff_ffff_ffff_ffff_ffff_ffff_ffff_ffffu128) by (nonlinear_arith)
                    requires
                        index <= 0xffff_ffff_ffff_ffffu64,
                        nominal <= 0xffff_ffff_ffff_ffffu64,
                ;
                assert((index as int + 1) * nominal as int == index as int * nominal as int
                    + nominal as int) by (nonlinear_arith);
                let start: u128 = index as u128 * nominal as u128;
                let end: u128 = start + nominal as u128;
                if index as u128 + 1 == self.pieces.len() as u128 / 20 && total >= 0 && start
                    < total as u128 && total as u128 <= end {
                    (total as u128 - start) as u64
                } else {
                    nominal
                }
            },
            None => nominal,
        }
    }
}

} // verus!
