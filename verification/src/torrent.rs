use crate::digest::{sha1_digest, sha1_of};
use crate::octets::array20;
use vstd::prelude::*;

verus! {

/// A metainfo file: where the tracker is, and what is to be downloaded.
#[derive(Debug)]
pub struct Torrent {
    /// The URL of the tracker.
    pub announce: String,
    pub info: Info,
}

/// The description of the content.
#[derive(Debug)]
pub struct Info {
    /// Suggested name to save the file (or directory) as.
    pub name: String,
    /// Number of bytes in each piece but possibly the last.
    pub plength: usize,
    /// The expected SHA-1 digest of each piece, by index.
    pub pieces: Hashes,
    pub keys: Keys,
}

/// Whether the content is one file or several.
#[derive(Debug)]
pub enum Keys {
    /// One file of `length` bytes.
    SingleFile { length: usize },
    /// Several files, which go in a directory structure.
    MultiFile { files: Vec<File> },
}

/// One file of a multi-file torrent.
#[derive(Debug)]
pub struct File {
    /// The length of the file, in bytes.
    pub length: usize,
    /// Subdirectory names, the last of which is the file name.
    pub path: Vec<String>,
}

/// The piece digests, twenty bytes each.
#[derive(Debug, PartialEq, Eq)]
pub struct Hashes(pub Vec<[u8; 20]>);

impl View for Hashes {
    type V = Seq<Seq<u8>>;

    open spec fn view(&self) -> Seq<Seq<u8>> {
        Seq::new(self.0@.len(), |i: int| self.0@[i]@)
    }
}

/// The digests that `bytes` holds back to back: twenty bytes each.
pub open spec fn hashes_of(bytes: Seq<u8>) -> Seq<Seq<u8>> {
    Seq::new(bytes.len() / 20, |i: int| bytes.subrange(20 * i, 20 * i + 20))
}

/// The digests of `hashes` back to back.
pub open spec fn joined(hashes: Seq<Seq<u8>>) -> Seq<u8> {
    Seq::new(20 * hashes.len(), |k: int| hashes[k / 20][k % 20])
}

impl Hashes {
    /// Cuts a byte string into digests. A length that is no multiple of
    /// twenty is refused.
    pub fn from_bytes(v: &[u8]) -> (hashes: Option<Hashes>)
        ensures
            hashes is Some <==> v@.len() % 20 == 0,
            hashes matches Some(h) ==> h@ == hashes_of(v@),
    {
        if v.len() % 20 != 0 {
            return None;
        }
        let count: usize = v.len() / 20;
        let mut out: Vec<[u8; 20]> = Vec::with_capacity(count);
        let mut i: usize = 0;
        while i < count
            invariant
                i <= count,
                count * 20 == v@.len() <= usize::MAX,
                out@.len() == i,
                forall|k: int| 0 <= k < i ==> (#[trigger] out@[k])@ == v@.subrange(20 * k, 20 * k + 20),
            decreases count - i,
        {
            let h = array20(v, i * 20);
            out.push(h);
            i = i + 1;
        }
        let hashes = Hashes(out);
        assert(hashes@ =~= hashes_of(v@));
        Some(hashes)
    }

    /// The digests back to back, as they stand in a metainfo file.
    pub fn to_bytes(&self) -> (bytes: Vec<u8>)
        ensures
            bytes@ == joined(self@),
    {
        let mut bytes: Vec<u8> = Vec::new();
        let mut i: usize = 0;
        while i < self.0.len()
            invariant
                i <= self.0@.len(),
                bytes@.len() == 20 * i,
                forall|k: int| 0 <= k < 20 * i ==> bytes@[k] == self.0@[k / 20]@[k % 20],
            decreases self.0@.len() - i,
        {
            let ghost before = bytes@;
            bytes.extend_from_slice(self.0[i].as_slice());
            proof {
                assert forall|k: int| 0 <= k < 20 * (i + 1) implies bytes@[k] == self.0@[k / 20]@[k
                    % 20] by {
                    if k >= 20 * i {
                        assert(k / 20 == i && k % 20 == k - 20 * i);
                    } else {
                        assert(bytes@[k] == before[k]);
                    }
                }
            }
            i = i + 1;
        }
        assert(bytes@ =~= joined(self@));
        bytes
    }

    /// Number of pieces, which is the number of digests.
    pub fn num_pieces(&self) -> (count: usize)
        ensures
            count == self@.len(),
    {
        self.0.len()
    }
}

/// Cutting joined digests gives the digests back, and joining what was cut
/// gives the bytes back.
pub proof fn lemma_hashes_round_trip(hashes: Seq<Seq<u8>>, bytes: Seq<u8>)
    ensures
        (forall|i: int| 0 <= i < hashes.len() ==> (#[trigger] hashes[i]).len() == 20)
            ==> hashes_of(joined(hashes)) == hashes,
        bytes.len() % 20 == 0 ==> joined(hashes_of(bytes)) == bytes,
{
    if forall|i: int| 0 <= i < hashes.len() ==> (#[trigger] hashes[i]).len() == 20 {
        let j = joined(hashes);
        assert(j.len() / 20 == hashes.len());
        assert forall|i: int| 0 <= i < hashes.len() implies hashes_of(j)[i] == hashes[i] by {
            assert forall|t: int| 0 <= t < 20 implies j.subrange(20 * i, 20 * i + 20)[t]
                == hashes[i][t] by {
                assert((20 * i + t) / 20 == i && (20 * i + t) % 20 == t);
            }
            assert(j.subrange(20 * i, 20 * i + 20) =~= hashes[i]);
        }
        assert(hashes_of(j) =~= hashes);
    }
    if bytes.len() % 20 == 0 {
        let h = hashes_of(bytes);
        assert(20 * h.len() == bytes.len());
        assert forall|k: int| 0 <= k < bytes.len() implies joined(h)[k] == bytes[k] by {
            assert(20 * (k / 20) + k % 20 == k);
        }
        assert(joined(h) =~= bytes);
    }
}

impl Info {
    /// The length of the content where it is one file.
    pub open spec fn spec_file_length(&self) -> Option<usize> {
        match self.keys {
            Keys::SingleFile { length } => Some(length),
            Keys::MultiFile { .. } => None,
        }
    }

    /// The length of the content where it is one file.
    pub fn file_length(&self) -> (length: Option<usize>)
        ensures
            length == self.spec_file_length(),
    {
        match &self.keys {
            Keys::SingleFile { length } => Some(*length),
            Keys::MultiFile { .. } => None,
        }
    }
}

impl Torrent {
    /// Length of a SHA-1 digest in bytes.
    pub const HASH_SIZE: usize = 20;

    /// The info hash: the SHA-1 digest of the bencoded info dictionary,
    /// which the caller hands in as bytes.
    pub fn info_hash(encoded_info: &[u8]) -> (hash: [u8; 20])
        ensures
            hash@ == sha1_of(encoded_info@),
    {
        sha1_digest(encoded_info)
    }
}

} // verus!
