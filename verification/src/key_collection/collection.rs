//! The keys of a whole value vector.

use vstd::prelude::*;

use crate::constraint_system::{ConstraintSystem, ConstraintSystemModel, InoutSegment};
use crate::key_collection::key_segment::{
    lemma_same_word, lemma_segment_unique, KeySegment, KeySegmentModel, KeyView,
};
use crate::key_collection::model::{
    hidden_groups, lemma_count_below_ends, lemma_reference_words, lemma_segment_size,
    public_groups, references,
};

verus! {

/// The keys of a constraint system's words, in the two halves of its value vector.
#[derive(Debug)]
pub struct KeyCollection {
    pub public: KeySegment,
    pub hidden: KeySegment,
}

/// What a [`KeyCollection`] holds.
#[verifier::ext_equal]
pub ghost struct KeyCollectionModel {
    pub public: KeySegmentModel,
    pub hidden: KeySegmentModel,
}

impl DeepView for KeyCollection {
    type V = KeyCollectionModel;

    open spec fn deep_view(&self) -> KeyCollectionModel {
        KeyCollectionModel { public: self.public.deep_view(), hidden: self.hidden.deep_view() }
    }
}

impl KeyCollection {
    /// Whether this is the key collection of a constraint system, split as `inout` says.
    pub open spec fn represents(&self, cs: ConstraintSystemModel, inout: InoutSegment) -> bool {
        self.public.represents(public_groups(cs, inout)) && self.hidden.represents(
            hidden_groups(cs, inout),
        )
    }

    /// What the keys of a word of the value vector say, in whichever half it stands.
    pub open spec fn word_view(&self, word: int) -> Seq<KeyView> {
        let n_public = self.public.key_ranges@.len();
        if word < n_public {
            self.public.word_view(word)
        } else {
            self.hidden.word_view(word - n_public)
        }
    }
}

/// A constraint system and a split determine the key collection: whatever builds it, it holds the
/// same keys in the same places.
pub proof fn law_collection_unique(
    a: KeyCollection,
    b: KeyCollection,
    cs: ConstraintSystemModel,
    inout: InoutSegment,
)
    requires
        a.represents(cs, inout),
        b.represents(cs, inout),
    ensures
        a.deep_view() == b.deep_view(),
{
    lemma_segment_unique(a.public, b.public, public_groups(cs, inout));
    lemma_segment_unique(a.hidden, b.hidden, hidden_groups(cs, inout));
}

/// Every use of a word stands in one of the two halves, once.
pub proof fn law_every_use_once(collection: KeyCollection, cs: ConstraintSystem, inout: InoutSegment)
    requires
        cs.deep_view().valid(),
        collection.represents(cs.deep_view(), inout),
    ensures
        collection.public.constraint_indices@.len() + collection.hidden.constraint_indices@.len()
            == references(cs.deep_view()).len(),
{
    let csm = cs.deep_view();
    let all = references(csm);
    lemma_reference_words(cs);
    lemma_count_below_ends(all, csm.value_vec_len());
    lemma_segment_size(all, 0, csm.n_public_words(inout));
    lemma_segment_size(all, csm.n_public_words(inout), csm.value_vec_len());
}

/// The split decides which half holds a word, and nothing else: a word has the same keys with the
/// same uses, in the same order, under either.
pub proof fn law_split_moves_words(
    a: KeyCollection,
    a_inout: InoutSegment,
    b: KeyCollection,
    b_inout: InoutSegment,
    cs: ConstraintSystemModel,
    word: int,
)
    requires
        a.represents(cs, a_inout),
        b.represents(cs, b_inout),
        0 <= word < cs.value_vec_len(),
    ensures
        a.word_view(word) == b.word_view(word),
{
    let m = cs.n_public_words(a_inout);
    let n = cs.n_public_words(b_inout);
    let (x, xs, v) = if word < m {
        (a.public, public_groups(cs, a_inout), word)
    } else {
        (a.hidden, hidden_groups(cs, a_inout), word - m)
    };
    let (y, ys, w) = if word < n {
        (b.public, public_groups(cs, b_inout), word)
    } else {
        (b.hidden, hidden_groups(cs, b_inout), word - n)
    };
    lemma_same_word(x, xs, v, y, ys, w);
}

} // verus!
