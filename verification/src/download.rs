use std::collections::HashMap;
use vstd::prelude::*;
use vstd::set_lib::lemma_subset_equality;

verus! {

/// Why a download was given up.
#[derive(Debug, Clone, Copy, PartialEq, Eq, Structural)]
pub enum DownloadError {
    /// A piece arrived a second time: the queue's promise is broken.
    Duplicate { index: usize },
    /// A piece is not there when the output is put together.
    Missing { index: usize },
}

/// The verified pieces of a download, by index, as they come in from the
/// sessions in any order.
#[derive(Debug)]
pub struct DownloadResult {
    num_pieces: usize,
    pieces: HashMap<usize, Vec<u8>>,
}

impl View for DownloadResult {
    type V = Map<usize, Seq<u8>>;

    /// The bytes of each piece that has come in.
    closed spec fn view(&self) -> Map<usize, Seq<u8>> {
        Map::new(|index: usize| self.pieces@.contains_key(index), |index: usize| self.pieces@[index]@)
    }
}

/// The first `count` pieces of `pieces` one behind the other, by ascending
/// index.
pub open spec fn assembled(pieces: Map<usize, Seq<u8>>, count: nat) -> Seq<u8>
    decreases count,
{
    if count == 0 {
        Seq::empty()
    } else {
        assembled(pieces, (count - 1) as nat) + pieces[(count - 1) as usize]
    }
}

impl DownloadResult {
    /// Number of pieces that the download consists of.
    pub closed spec fn spec_num_pieces(&self) -> usize {
        self.num_pieces
    }

    /// Whether as many pieces have come in as the download consists of.
    pub open spec fn spec_is_complete(&self) -> bool {
        self@.dom().len() == self.spec_num_pieces()
    }

    /// An empty result for a download of `num_pieces` pieces.
    pub fn new(num_pieces: usize) -> (result: Self)
        ensures
            result@ == Map::<usize, Seq<u8>>::empty(),
            result.spec_num_pieces() == num_pieces,
            result@.dom().finite(),
    {
        let result = DownloadResult { num_pieces, pieces: HashMap::new() };
        assert(result@ =~= Map::<usize, Seq<u8>>::empty());
        result
    }

    /// Number of pieces that the download consists of.
    #[verifier::when_used_as_spec(spec_num_pieces)]
    pub fn num_pieces(&self) -> (count: usize)
        ensures
            count == self.spec_num_pieces(),
    {
        self.num_pieces
    }

    /// Takes in piece `index`. A piece that is already there is refused
    /// and nothing changes; otherwise the answer says whether the download
    /// is now complete.
    pub fn record(&mut self, index: usize, data: Vec<u8>) -> (result: Result<bool, DownloadError>)
        ensures
            final(self).spec_num_pieces() == old(self).spec_num_pieces(),
            final(self)@.dom().finite(),
            old(self)@.contains_key(index) ==> result == Err::<bool, DownloadError>(
                DownloadError::Duplicate { index },
            ) && final(self)@ == old(self)@,
            !old(self)@.contains_key(index) ==> result == Ok::<bool, DownloadError>(
                final(self).spec_is_complete(),
            ) && final(self)@ == old(self)@.insert(index, data@),
    {
        assert(self@.dom() =~= self.pieces@.dom());
        if self.pieces.contains_key(&index) {
            return Err(DownloadError::Duplicate { index });
        }
        self.pieces.insert(index, data);
        assert(self@ =~= old(self)@.insert(index, data@));
        let complete = self.is_complete();
        Ok(complete)
    }

    /// Whether as many pieces have come in as the download consists of.
    #[verifier::when_used_as_spec(spec_is_complete)]
    pub fn is_complete(&self) -> (complete: bool)
        ensures
            complete == self.spec_is_complete(),
    {
        assert(self@.dom() =~= self.pieces@.dom());
        self.pieces.len() == self.num_pieces
    }

    /// The output of the download: all pieces one behind the other, by
    /// ascending index, whatever the order they came in. Where a piece is
    /// not there, the least such index is reported.
    pub fn assemble(&self) -> (result: Result<Vec<u8>, DownloadError>)
        ensures
            result matches Ok(bytes) ==> {
                &&& forall|index: usize| index < self.spec_num_pieces() ==> self@.contains_key(index)
                &&& bytes@ == assembled(self@, self.spec_num_pieces() as nat)
            },
            result matches Err(error) ==> {
                &&& error matches DownloadError::Missing { index }
                &&& index < self.spec_num_pieces()
                &&& !self@.contains_key(index)
                &&& forall|before: usize| before < index ==> self@.contains_key(before)
            },
    {
        let mut output: Vec<u8> = Vec::new();
        let mut index: usize = 0;
        while index < self.num_pieces
            invariant
                index <= self.num_pieces,
                forall|before: usize| before < index ==> self@.contains_key(before),
                output@ == assembled(self@, index as nat),
            decreases self.num_pieces - index,
        {
            match self.pieces.get(&index) {
                None => {
                    return Err(DownloadError::Missing { index });
                },
                Some(piece) => {
                    output.extend_from_slice(piece.as_slice());
                    assert(output@ =~= assembled(self@, index as nat) + self@[index]);
                },
            }
            index = index + 1;
        }
        Ok(output)
    }
}

/// The indices below `count`.
pub open spec fn indices_below(count: nat) -> Set<usize> {
    Set::new(|index: usize| index < count)
}

/// There are `count` indices below `count`.
pub proof fn lemma_indices_below(count: nat)
    requires
        count <= usize::MAX,
    ensures
        indices_below(count).finite(),
        indices_below(count).len() == count,
    decreases count,
{
    if count == 0 {
        assert(indices_below(count) =~= Set::empty());
    } else {
        lemma_indices_below((count - 1) as nat);
        assert(indices_below(count) =~= indices_below((count - 1) as nat).insert(
            (count - 1) as usize,
        ));
    }
}

/// A download that holds as many pieces as it consists of, all of them
/// numbered below that count, lacks none.
pub proof fn lemma_complete_download_lacks_nothing(pieces: Map<usize, Seq<u8>>, count: usize)
    requires
        pieces.dom().finite(),
        pieces.dom().len() == count,
        forall|index: usize| pieces.contains_key(index) ==> index < count,
    ensures
        forall|index: usize| index < count ==> pieces.contains_key(index),
{
    lemma_indices_below(count as nat);
    assert(pieces.dom().subset_of(indices_below(count as nat)));
    lemma_subset_equality(pieces.dom(), indices_below(count as nat));
    assert forall|index: usize| index < count implies pieces.contains_key(index) by {
        assert(indices_below(count as nat).contains(index));
    }
}

/// The output does not depend on the order in which pieces come in: two
/// different pieces recorded in either order give the same result.
pub proof fn lemma_arrival_order_is_irrelevant(
    pieces: Map<usize, Seq<u8>>,
    first: usize,
    first_data: Seq<u8>,
    second: usize,
    second_data: Seq<u8>,
)
    requires
        first != second,
    ensures
        pieces.insert(first, first_data).insert(second, second_data) == pieces.insert(
            second,
            second_data,
        ).insert(first, first_data),
{
    assert(pieces.insert(first, first_data).insert(second, second_data) =~= pieces.insert(
        second,
        second_data,
    ).insert(first, first_data));
}

} // verus!
