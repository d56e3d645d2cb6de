//! The keys of one half of the value vector.

use std::ops::Range;

use vstd::prelude::*;

use crate::constraint_system::{
    lemma_seq_code_injective, seq_code_model, seq_wf, Shift, SHIFT_SEQ_COUNT,
};
use crate::key_collection::dense_shift_encoding::DenseShiftEncoding;
use crate::key_collection::key::{ConstraintIndex, Key, KeyModel, Operation};
use crate::key_collection::model::{
    flat_constraints, lemma_flat_constraints_add, lemma_flat_constraints_take,
    lemma_flatten_index, KeyGroup,
};

verus! {

/// One value-vector segment's keys, public or hidden.
/// Indexed so each word's constraints can be found without a scan.
#[derive(Debug)]
pub struct KeySegment {
    /// Every key of the segment, flattened into one vector.
    pub keys: Vec<Key>,
    /// One range per word, at that word's segment-relative index.
    /// The range names that word's keys inside the flattened keys vector.
    pub key_ranges: Vec<Range<u32>>,
    /// The constraint indices the keys reference, flattened into one vector.
    pub constraint_indices: Vec<ConstraintIndex>,
    /// The shift sequences the segment's keys name.
    pub dense_shift_enc: DenseShiftEncoding,
}

/// What a [`KeySegment`] holds.
#[verifier::ext_equal]
pub ghost struct KeySegmentModel {
    pub keys: Seq<KeyModel>,
    pub key_ranges: Seq<(u32, u32)>,
    pub constraint_indices: Seq<ConstraintIndex>,
    /// The inner and the outer shift of each sequence.
    pub shift_seqs: Seq<(Shift, Shift)>,
}

impl DeepView for KeySegment {
    type V = KeySegmentModel;

    open spec fn deep_view(&self) -> KeySegmentModel {
        KeySegmentModel {
            keys: self.keys.deep_view(),
            key_ranges: self.key_ranges@.map_values(|r: Range<u32>| (r.start, r.end)),
            constraint_indices: self.constraint_indices@,
            shift_seqs: self.dense_shift_enc.deep_view(),
        }
    }
}

impl Clone for KeySegment {
    fn clone(&self) -> (segment: Self)
        ensures
            segment.deep_view() == self.deep_view(),
            segment.dense_shift_enc.seqs() == self.dense_shift_enc.seqs(),
    {
        let mut keys: Vec<Key> = Vec::with_capacity(self.keys.len());
        let mut i: usize = 0;
        while i < self.keys.len()
            invariant
                i == keys@.len() <= self.keys@.len(),
                forall|j: int| 0 <= j < i ==> #[trigger] keys@[j] == self.keys@[j],
            decreases self.keys@.len() - i,
        {
            keys.push(self.keys[i].clone());
            i += 1;
        }
        let mut key_ranges: Vec<Range<u32>> = Vec::with_capacity(self.key_ranges.len());
        i = 0;
        while i < self.key_ranges.len()
            invariant
                i == key_ranges@.len() <= self.key_ranges@.len(),
                forall|j: int| 0 <= j < i ==> #[trigger] key_ranges@[j] == self.key_ranges@[j],
            decreases self.key_ranges@.len() - i,
        {
            key_ranges.push(self.key_ranges[i].start..self.key_ranges[i].end);
            i += 1;
        }
        let mut constraint_indices: Vec<ConstraintIndex> = Vec::with_capacity(
            self.constraint_indices.len(),
        );
        i = 0;
        while i < self.constraint_indices.len()
            invariant
                i == constraint_indices@.len() <= self.constraint_indices@.len(),
                forall|j: int|
                    0 <= j < i ==> #[trigger] constraint_indices@[j] == self.constraint_indices@[j],
            decreases self.constraint_indices@.len() - i,
        {
            constraint_indices.push(self.constraint_indices[i]);
            i += 1;
        }
        let segment = KeySegment {
            keys,
            key_ranges,
            constraint_indices,
            dense_shift_enc: self.dense_shift_enc.clone(),
        };
        assert(segment.deep_view() =~= self.deep_view()) by {
            assert(keys@ =~= self.keys@);
            assert(key_ranges@ =~= self.key_ranges@);
            assert(constraint_indices@ =~= self.constraint_indices@);
            assert(keys.deep_view() =~= self.keys.deep_view());
        }
        segment
    }
}

/// What a key says, whatever segment it is in.
#[verifier::ext_equal]
pub ghost struct KeyView {
    pub operation: Operation,
    pub shift_seq: [Shift; 2],
    pub constraints: Seq<ConstraintIndex>,
}

/// Whether a key stands for group `k` of a list, under an encoding of the shift sequences.
pub open spec fn key_represents(
    key: Key,
    dense_shift_enc: DenseShiftEncoding,
    groups: Seq<KeyGroup>,
    k: int,
) -> bool {
    &&& key.operation.code_model() == groups[k].code / 262144
    &&& key.dense_shift_idx < dense_shift_enc.seqs().len()
    &&& seq_code_model(dense_shift_enc.seqs()[key.dense_shift_idx as int]) == groups[k].code
        % 262144
    &&& key.range.start == flat_constraints(groups.take(k)).len()
    &&& key.range.end == flat_constraints(groups.take(k + 1)).len()
}

impl KeySegment {
    /// Whether the segment is the one with these groups of uses, listed word by word: one key per
    /// group, in order, and no shift sequence but those that the groups name.
    pub open spec fn represents(&self, words: Seq<Seq<KeyGroup>>) -> bool {
        let groups = words.flatten();
        &&& self.dense_shift_enc.wf()
        &&& self.dense_shift_enc.seqs().len() <= SHIFT_SEQ_COUNT
        &&& forall|s: [Shift; 2]| #[trigger]
            self.dense_shift_enc.seqs().contains(s) ==> exists|k: int|
                0 <= k < groups.len() && #[trigger] groups[k].code % 262144 == seq_code_model(s)
        &&& self.keys@.len() == groups.len()
        &&& forall|k: int|
            0 <= k < groups.len() ==> key_represents(
                #[trigger] self.keys@[k],
                self.dense_shift_enc,
                groups,
                k,
            )
        &&& self.key_ranges@.len() == words.len()
        &&& forall|w: int|
            0 <= w < words.len() ==> (#[trigger] self.key_ranges@[w]).start
                == words.take(w).flatten().len() && self.key_ranges@[w].end == words.take(
                w + 1,
            ).flatten().len()
        &&& self.constraint_indices@ == flat_constraints(groups)
    }

    /// The keys of a word.
    pub open spec fn keys_of(&self, w: int) -> Seq<Key> {
        self.keys@.subrange(self.key_ranges@[w].start as int, self.key_ranges@[w].end as int)
    }

    /// What a key says: the operation, the shift sequence and the uses.
    pub open spec fn key_view(&self, key: Key) -> KeyView {
        KeyView {
            operation: key.operation,
            shift_seq: self.dense_shift_enc.seqs()[key.dense_shift_idx as int],
            constraints: self.constraint_indices@.subrange(
                key.range.start as int,
                key.range.end as int,
            ),
        }
    }

    /// What the keys of a word say.
    pub open spec fn word_view(&self, w: int) -> Seq<KeyView> {
        self.keys_of(w).map_values(|key: Key| self.key_view(key))
    }

    /// The number of words the segment covers.
    pub fn n_words(&self) -> (n: usize)
        ensures
            n == self.key_ranges@.len(),
    {
        self.key_ranges.len()
    }

    /// The keys for the word at the given segment-relative index.
    pub fn word_keys(&self, index: usize) -> (keys: &[Key])
        requires
            index < self.key_ranges@.len(),
            self.key_ranges@[index as int].start <= self.key_ranges@[index as int].end,
            self.key_ranges@[index as int].end <= self.keys@.len(),
        ensures
            keys@ == self.keys_of(index as int),
    {
        let start: usize = self.key_ranges[index].start as usize;
        let end: usize = self.key_ranges[index].end as usize;
        vstd::slice::slice_subrange(self.keys.as_slice(), start, end)
    }
}

/// Two ascending lists of the same numbers are the same list.
proof fn lemma_ascending_unique(a: Seq<int>, b: Seq<int>)
    requires
        forall|i: int, j: int| 0 <= i < j < a.len() ==> #[trigger] a[i] < #[trigger] a[j],
        forall|i: int, j: int| 0 <= i < j < b.len() ==> #[trigger] b[i] < #[trigger] b[j],
        forall|i: int| 0 <= i < a.len() ==> b.contains(#[trigger] a[i]),
        forall|i: int| 0 <= i < b.len() ==> a.contains(#[trigger] b[i]),
    ensures
        a == b,
    decreases a.len(),
{
    if a.len() == 0 {
        if b.len() > 0 {
            assert(a.contains(b[0]));
        }
        assert(a =~= b);
    } else {
        assert(b.contains(a[a.len() - 1]));
        let m = choose|m: int| 0 <= m < b.len() && b[m] == a[a.len() - 1];
        assert(a.contains(b[b.len() - 1]));
        let n = choose|n: int| 0 <= n < a.len() && a[n] == b[b.len() - 1];
        assert(a.last() == b.last());
        let c = a.drop_last();
        let d = b.drop_last();
        assert forall|i: int| 0 <= i < c.len() implies d.contains(#[trigger] c[i]) by {
            assert(b.contains(a[i]));
            let k = choose|k: int| 0 <= k < b.len() && b[k] == a[i];
            assert(d[k] == c[i]);
        }
        assert forall|i: int| 0 <= i < d.len() implies c.contains(#[trigger] d[i]) by {
            assert(a.contains(b[i]));
            let k = choose|k: int| 0 <= k < a.len() && a[k] == b[i];
            assert(c[k] == d[i]);
        }
        lemma_ascending_unique(c, d);
        assert(a =~= c.push(a.last()));
        assert(b =~= d.push(b.last()));
    }
}

/// The code of a sequence that one segment's encoding holds is among the codes of another's.
proof fn lemma_same_codes(
    a: KeySegment,
    b: KeySegment,
    words: Seq<Seq<KeyGroup>>,
    codes: Seq<int>,
    i: int,
)
    requires
        a.represents(words),
        b.represents(words),
        codes == b.dense_shift_enc.seqs().map_values(|s: [Shift; 2]| seq_code_model(s)),
        0 <= i < a.dense_shift_enc.seqs().len(),
    ensures
        codes.contains(seq_code_model(a.dense_shift_enc.seqs()[i])),
{
    let groups = words.flatten();
    let s = a.dense_shift_enc.seqs()[i];
    assert(a.dense_shift_enc.seqs().contains(s));
    let k = choose|k: int|
        0 <= k < groups.len() && #[trigger] groups[k].code % 262144 == seq_code_model(s);
    assert(key_represents(b.keys@[k], b.dense_shift_enc, groups, k));
    assert(codes[b.keys@[k].dense_shift_idx as int] == seq_code_model(s));
}

/// A list of groups determines the segment that stands for it.
pub proof fn lemma_segment_unique(a: KeySegment, b: KeySegment, words: Seq<Seq<KeyGroup>>)
    requires
        a.represents(words),
        b.represents(words),
    ensures
        a.deep_view() == b.deep_view(),
        a.dense_shift_enc.seqs() == b.dense_shift_enc.seqs(),
{
    let groups = words.flatten();
    let code = |s: [Shift; 2]| seq_code_model(s);
    let a_seqs = a.dense_shift_enc.seqs();
    let b_seqs = b.dense_shift_enc.seqs();
    let a_codes = a_seqs.map_values(code);
    let b_codes = b_seqs.map_values(code);
    assert forall|i: int| 0 <= i < a_codes.len() implies b_codes.contains(#[trigger] a_codes[i]) by {
        lemma_same_codes(a, b, words, b_codes, i);
    }
    assert forall|i: int| 0 <= i < b_codes.len() implies a_codes.contains(#[trigger] b_codes[i]) by {
        lemma_same_codes(b, a, words, a_codes, i);
    }
    lemma_ascending_unique(a_codes, b_codes);
    assert forall|i: int| 0 <= i < a_seqs.len() implies #[trigger] a_seqs[i] == b_seqs[i] by {
        assert(a_codes[i] == b_codes[i]);
        assert(seq_wf(a_seqs[i]) && seq_wf(b_seqs[i]));
        lemma_seq_code_injective(a_seqs[i], b_seqs[i]);
    }
    assert(a_seqs =~= b_seqs);
    assert forall|k: int| 0 <= k < groups.len() implies #[trigger] a.keys@[k].deep_view()
        == b.keys@[k].deep_view() by {
        assert(key_represents(a.keys@[k], a.dense_shift_enc, groups, k));
        assert(key_represents(b.keys@[k], b.dense_shift_enc, groups, k));
        let i = a.keys@[k].dense_shift_idx as int;
        let j = b.keys@[k].dense_shift_idx as int;
        assert(a_codes[i] == b_codes[j]);
        assert(a_codes[i] == a_codes[j]);
        assert(seq_code_model(a_seqs[i]) == seq_code_model(a_seqs[j]));
    }
    assert(a.keys.deep_view() =~= b.keys.deep_view());
    assert(a.deep_view() =~= b.deep_view());
}

/// In a segment that stands for a list of groups, every word's range lies inside the keys.
pub proof fn lemma_word_ranges(segment: KeySegment, words: Seq<Seq<KeyGroup>>, w: int)
    requires
        segment.represents(words),
        0 <= w < words.len(),
    ensures
        segment.key_ranges@[w].start <= segment.key_ranges@[w].end <= segment.keys@.len(),
{
    assert(words =~= words.take(w) + words.skip(w));
    assert(words =~= words.take(w + 1) + words.skip(w + 1));
    assert(words.take(w + 1) =~= words.take(w).push(words[w]));
    vstd::seq_lib::lemma_flatten_concat(words.take(w + 1), words.skip(w + 1));
    words.take(w).lemma_flatten_push(words[w]);
}

/// A word's keys are found at its range, one per group of its uses and in order; each names the
/// group's operation and shift sequence, and its own range holds the group's uses.
pub proof fn law_word_keys(segment: KeySegment, words: Seq<Seq<KeyGroup>>, w: int, k: int)
    requires
        segment.represents(words),
        0 <= w < words.len(),
        0 <= k < words[w].len(),
    ensures
        ({
            let range = segment.key_ranges@[w];
            let key = segment.keys@[range.start + k];
            &&& range.end - range.start == words[w].len()
            &&& range.end <= segment.keys@.len()
            &&& key.operation.code_model() == words[w][k].code / 262144
            &&& key.dense_shift_idx < segment.dense_shift_enc.seqs().len()
            &&& seq_code_model(segment.dense_shift_enc.seqs()[key.dense_shift_idx as int])
                == words[w][k].code % 262144
            &&& key.range.start <= key.range.end <= segment.constraint_indices@.len()
            &&& segment.constraint_indices@.subrange(key.range.start as int, key.range.end as int)
                == words[w][k].constraints
        }),
{
    let groups = words.flatten();
    lemma_word_ranges(segment, words, w);
    lemma_flatten_index(words, w);
    let at = segment.key_ranges@[w].start + k;
    assert(words[w][k] == groups[at]);
    assert(key_represents(segment.keys@[at], segment.dense_shift_enc, groups, at));
    lemma_flat_constraints_take(groups, at);
    assert(groups =~= groups.take(at + 1) + groups.skip(at + 1));
    lemma_flat_constraints_add(groups.take(at + 1), groups.skip(at + 1));
    let before = flat_constraints(groups.take(at));
    assert(flat_constraints(groups).subrange(
        before.len() as int,
        flat_constraints(groups.take(at + 1)).len() as int,
    ) =~= groups[at].constraints);
}

/// Where two segments have the same groups for a word each, they say the same of the two words.
pub proof fn lemma_same_word(
    a: KeySegment,
    a_words: Seq<Seq<KeyGroup>>,
    v: int,
    b: KeySegment,
    b_words: Seq<Seq<KeyGroup>>,
    w: int,
)
    requires
        a.represents(a_words),
        b.represents(b_words),
        0 <= v < a_words.len(),
        0 <= w < b_words.len(),
        a_words[v] == b_words[w],
    ensures
        a.word_view(v) == b.word_view(w),
{
    let n = a_words[v].len() as int;
    lemma_word_ranges(a, a_words, v);
    lemma_word_ranges(b, b_words, w);
    lemma_flatten_index(a_words, v);
    lemma_flatten_index(b_words, w);
    assert(a.word_view(v).len() == n && b.word_view(w).len() == n);
    assert forall|k: int| 0 <= k < n implies #[trigger] a.word_view(v)[k] == b.word_view(w)[k] by {
        law_word_keys(a, a_words, v, k);
        law_word_keys(b, b_words, w, k);
        let x = a.keys@[a.key_ranges@[v].start + k];
        let y = b.keys@[b.key_ranges@[w].start + k];
        assert(a.keys_of(v)[k] == x && b.keys_of(w)[k] == y);
        let s = a.dense_shift_enc.seqs()[x.dense_shift_idx as int];
        let t = b.dense_shift_enc.seqs()[y.dense_shift_idx as int];
        assert(seq_wf(s) && seq_wf(t));
        lemma_seq_code_injective(s, t);
    }
    assert(a.word_view(v) =~= b.word_view(w));
}

/// The keys of the words, one word after the other, are all keys: each belongs to one word.
pub proof fn law_words_make_up_the_keys(segment: KeySegment, words: Seq<Seq<KeyGroup>>)
    requires
        segment.represents(words),
    ensures
        forall|w: int|
            0 <= w < segment.key_ranges@.len() ==> (#[trigger] segment.key_ranges@[w]).start
                <= segment.key_ranges@[w].end <= segment.keys@.len(),
        Seq::new(segment.key_ranges@.len(), |w: int| segment.keys_of(w)).flatten()
            == segment.keys@,
{
    assert forall|w: int| 0 <= w < segment.key_ranges@.len() implies (
    #[trigger] segment.key_ranges@[w]).start <= segment.key_ranges@[w].end
        <= segment.keys@.len() by {
        lemma_word_ranges(segment, words, w);
    }
    let parts = Seq::new(segment.key_ranges@.len(), |w: int| segment.keys_of(w));
    lemma_first_parts(segment, words, parts, words.len() as int);
    assert(parts.take(words.len() as int) =~= parts);
    assert(words.take(words.len() as int) =~= words);
    assert(segment.keys@.take(segment.keys@.len() as int) =~= segment.keys@);
}

/// The keys of the first words are the first keys.
proof fn lemma_first_parts(
    segment: KeySegment,
    words: Seq<Seq<KeyGroup>>,
    parts: Seq<Seq<Key>>,
    n: int,
)
    requires
        segment.represents(words),
        parts == Seq::new(segment.key_ranges@.len(), |w: int| segment.keys_of(w)),
        0 <= n <= words.len(),
    ensures
        words.take(n).flatten().len() <= segment.keys@.len(),
        parts.take(n).flatten() == segment.keys@.take(words.take(n).flatten().len() as int),
    decreases n,
{
    if n == 0 {
        assert(words.take(0) =~= Seq::empty());
        assert(parts.take(0) =~= Seq::empty());
        assert(parts.take(0).flatten() =~= segment.keys@.take(0));
    } else {
        lemma_first_parts(segment, words, parts, n - 1);
        lemma_word_ranges(segment, words, n - 1);
        lemma_flatten_index(parts, n - 1);
        assert(parts.take(n).flatten() =~= segment.keys@.take(
            words.take(n).flatten().len() as int,
        ));
    }
}

} // verus!
