//! The one-pass builder of a [`KeyCollection`]: every reference goes straight to its key, in one
//! list of keys per word. It yields what the counting-sort builder yields.

use std::ops::Range;

use vstd::prelude::*;

use crate::constraint_system::{
    constraints_model, lemma_seq_code_injective, seq_code_model, seq_wf, Constraint,
    ConstraintSystem, InoutSegment, Shift,
};
use crate::key_collection::collection::KeyCollection;
use crate::key_collection::dense_shift_encoding::DenseShiftEncoding;
use crate::key_collection::key::{ConstraintIndex, Key, Operation};
use crate::key_collection::key_segment::{key_represents, KeySegment};
use crate::key_collection::model::{
    first_codes, flat_constraints, hidden_groups, key_code, key_constraints,
    lemma_count_below_bounds, lemma_first_codes, lemma_flat_constraints_take, lemma_flatten_index,
    lemma_key_code_parts, lemma_segment_size, lemma_no_key_constraints, lemma_word_references_push,
    operand_references, operation_references, position_references, public_groups, references,
    term_reference, word_groups, word_references, KeyGroup, KeyedRef, Reference,
};
use crate::key_collection::operand_order::{
    codes_ascend, keyed, lemma_key_constraints_ascend, lemma_references_ascend,
    lemma_word_references_ascend, operands_ascend,
};

verus! {

/// A key still under construction: the shift sequence, the operation, and every constraint
/// reference under that pair, in walk order.
pub struct BuilderKey {
    pub shift_seq: [Shift; 2],
    pub operation: Operation,
    pub constraint_indices: Vec<ConstraintIndex>,
}

impl BuilderKey {
    pub open spec fn code(&self) -> int {
        key_code(self.operation, seq_code_model(self.shift_seq))
    }

    /// The key as a group of uses.
    pub open spec fn group(&self) -> KeyGroup {
        KeyGroup { code: self.code(), constraints: self.constraint_indices@ }
    }
}

/// The groups of a list of keys under construction.
pub open spec fn list_groups(list: Seq<BuilderKey>) -> Seq<KeyGroup> {
    list.map_values(|key: BuilderKey| key.group())
}

/// The uses with an operand position below `n`, by operand position, in order at each.
pub open spec fn by_operand(uses: Seq<ConstraintIndex>, n: int) -> Seq<ConstraintIndex>
    decreases n,
{
    if n <= 0 {
        Seq::empty()
    } else {
        by_operand(uses, n - 1) + uses.filter(|u: ConstraintIndex| u.operand_index == n - 1)
    }
}

/// The uses in a stable order by operand position.
pub open spec fn sorted_by_operand(uses: Seq<ConstraintIndex>) -> Seq<ConstraintIndex> {
    by_operand(uses, 256)
}

/// From the highest operand position on, nothing is added.
proof fn lemma_by_operand_bound(uses: Seq<ConstraintIndex>, bound: int, n: int)
    requires
        0 <= bound <= n,
        forall|i: int| 0 <= i < uses.len() ==> (#[trigger] uses[i]).operand_index < bound,
    ensures
        by_operand(uses, n) == by_operand(uses, bound),
    decreases n - bound,
{
    if n > bound {
        lemma_by_operand_bound(uses, bound, n - 1);
        let pred = |u: ConstraintIndex| u.operand_index == n - 1;
        let kept = uses.filter(pred);
        if kept.len() > 0 {
            uses.lemma_filter_pred(pred, 0);
            assert(kept.contains(kept[0]));
            uses.lemma_filter_contains_rev(pred, kept[0]);
            let i = choose|i: int| 0 <= i < uses.len() && uses[i] == kept[0];
            assert(uses[i].operand_index < bound);
        }
        assert(by_operand(uses, n) =~= by_operand(uses, n - 1));
    }
}

/// Uses whose operand positions do not fall are those below a position, then those at it.
proof fn lemma_filter_split(uses: Seq<ConstraintIndex>, n: int)
    requires
        operands_ascend(uses),
    ensures
        uses.filter(|u: ConstraintIndex| u.operand_index < n) == uses.filter(
            |u: ConstraintIndex| u.operand_index < n - 1,
        ) + uses.filter(|u: ConstraintIndex| u.operand_index == n - 1),
    decreases uses.len(),
{
    let below = |u: ConstraintIndex| u.operand_index < n;
    let further = |u: ConstraintIndex| u.operand_index < n - 1;
    let at = |u: ConstraintIndex| u.operand_index == n - 1;
    if uses.len() == 0 {
        uses.lemma_filter_len(below);
        uses.lemma_filter_len(further);
        uses.lemma_filter_len(at);
        assert(uses.filter(below) =~= uses.filter(further) + uses.filter(at));
    } else {
        let prefix = uses.drop_last();
        let last = uses.last();
        assert forall|i: int, j: int| 0 <= i < j < prefix.len() implies (
        #[trigger] prefix[i]).operand_index <= (#[trigger] prefix[j]).operand_index by {
            assert(prefix[i] == uses[i]);
            assert(prefix[j] == uses[j]);
        }
        lemma_filter_split(prefix, n);
        assert(uses =~= prefix.push(last));
        prefix.lemma_filter_push(last, below);
        prefix.lemma_filter_push(last, further);
        prefix.lemma_filter_push(last, at);
        if further(last) {
            // Nothing before the last use is at the position either.
            let kept = prefix.filter(at);
            if kept.len() > 0 {
                prefix.lemma_filter_pred(at, 0);
                assert(kept.contains(kept[0]));
                prefix.lemma_filter_contains_rev(at, kept[0]);
                let i = choose|i: int| 0 <= i < prefix.len() && prefix[i] == kept[0];
                assert(prefix[i] == uses[i]);
                assert(uses[i].operand_index <= uses[uses.len() - 1].operand_index);
            }
        }
        assert(uses.filter(below) =~= uses.filter(further) + uses.filter(at));
    }
}

/// A stable sort leaves uses alone whose operand positions do not fall.
pub proof fn lemma_sorted_already(uses: Seq<ConstraintIndex>)
    requires
        operands_ascend(uses),
    ensures
        sorted_by_operand(uses) == uses,
{
    lemma_by_operand_filter(uses, 256);
    let all = |u: ConstraintIndex| u.operand_index < 256;
    lemma_filter_all(uses, all);
}

proof fn lemma_by_operand_filter(uses: Seq<ConstraintIndex>, n: int)
    requires
        operands_ascend(uses),
        0 <= n,
    ensures
        by_operand(uses, n) == uses.filter(|u: ConstraintIndex| u.operand_index < n),
    decreases n,
{
    if n == 0 {
        let none = |u: ConstraintIndex| u.operand_index < n;
        let kept = uses.filter(none);
        if kept.len() > 0 {
            uses.lemma_filter_pred(none, 0);
        }
        assert(by_operand(uses, n) =~= kept);
    } else {
        lemma_by_operand_filter(uses, n - 1);
        lemma_filter_split(uses, n);
    }
}

proof fn lemma_filter_all<A>(s: Seq<A>, pred: spec_fn(A) -> bool)
    requires
        forall|i: int| 0 <= i < s.len() ==> pred(#[trigger] s[i]),
    ensures
        s.filter(pred) == s,
    decreases s.len(),
{
    if s.len() == 0 {
        s.lemma_filter_len(pred);
        assert(s.filter(pred) =~= s);
    } else {
        let prefix = s.drop_last();
        assert forall|i: int| 0 <= i < prefix.len() implies pred(#[trigger] prefix[i]) by {
            assert(prefix[i] == s[i]);
        }
        lemma_filter_all(prefix, pred);
        assert(pred(s[s.len() - 1]));
        assert(s =~= prefix.push(s.last()));
        prefix.lemma_filter_push(s.last(), pred);
    }
}

/// Sorts uses by operand position, keeping their order at each position.
fn sort_by_operand(uses: &Vec<ConstraintIndex>) -> (sorted: Vec<ConstraintIndex>)
    ensures
        sorted@ == sorted_by_operand(uses@),
        sorted@.len() == uses@.len(),
{
    let mut bound: usize = 0;
    let mut i: usize = 0;
    while i < uses.len()
        invariant
            i <= uses@.len(),
            bound <= 256,
            forall|k: int| 0 <= k < i ==> (#[trigger] uses@[k]).operand_index < bound,
        decreases uses@.len() - i,
    {
        let operand: usize = uses[i].operand_index as usize;
        if bound <= operand {
            bound = operand + 1;
        }
        i += 1;
    }
    let mut sorted: Vec<ConstraintIndex> = Vec::with_capacity(uses.len());
    let mut position: usize = 0;
    while position < bound
        invariant
            position <= bound <= 256,
            sorted@ == by_operand(uses@, position as int),
        decreases bound - position,
    {
        let ghost pred = |u: ConstraintIndex| u.operand_index == position + 1 - 1;
        let ghost before = sorted@;
        let mut k: usize = 0;
        proof {
            uses@.take(0).lemma_filter_len(pred);
            assert(sorted@ =~= before + uses@.take(0).filter(pred));
        }
        while k < uses.len()
            invariant
                position < 256,
                k <= uses@.len(),
                pred == (|u: ConstraintIndex| u.operand_index == position + 1 - 1),
                sorted@ == before + uses@.take(k as int).filter(pred),
            decreases uses@.len() - k,
        {
            proof {
                assert(uses@.take(k + 1) =~= uses@.take(k as int).push(uses@[k as int]));
                uses@.take(k as int).lemma_filter_push(uses@[k as int], pred);
            }
            if uses[k].operand_index as usize == position {
                sorted.push(uses[k]);
            }
            assert(sorted@ =~= before + uses@.take(k + 1).filter(pred));
            k += 1;
        }
        assert(uses@.take(k as int) =~= uses@);
        position += 1;
    }
    proof {
        lemma_by_operand_bound(uses@, bound as int, 256);
        lemma_sorted_len(uses@);
    }
    sorted
}

/// Sorting keeps the number of uses.
proof fn lemma_sorted_len(uses: Seq<ConstraintIndex>)
    ensures
        sorted_by_operand(uses).len() == uses.len(),
    decreases uses.len(),
{
    if uses.len() == 0 {
        lemma_by_operand_bound(uses, 0, 256);
    } else {
        let prefix = uses.drop_last();
        lemma_sorted_len(prefix);
        assert(uses =~= prefix.push(uses.last()));
        lemma_by_operand_push_len(prefix, uses.last(), 256);
    }
}

proof fn lemma_by_operand_push_len(uses: Seq<ConstraintIndex>, u: ConstraintIndex, n: int)
    requires
        0 <= n,
    ensures
        by_operand(uses.push(u), n).len() == by_operand(uses, n).len() + if u.operand_index < n {
            1int
        } else {
            0
        },
    decreases n,
{
    if n > 0 {
        lemma_by_operand_push_len(uses, u, n - 1);
        uses.lemma_filter_push(u, |u: ConstraintIndex| u.operand_index == n - 1);
    }
}

/// The groups that a list of keys under construction becomes: each key's uses, by operand
/// position.
pub open spec fn finished_groups(list: Seq<BuilderKey>) -> Seq<KeyGroup> {
    list.map_values(
        |key: BuilderKey|
            KeyGroup {
                code: key.code(),
                constraints: sorted_by_operand(key.constraint_indices@),
            },
    )
}

/// The groups that the words' lists of keys under construction become.
pub open spec fn finished_words(lists: Seq<Vec<BuilderKey>>) -> Seq<Seq<KeyGroup>> {
    lists.map_values(|list: Vec<BuilderKey>| finished_groups(list@))
}

/// Whether the shifts of every key under construction are in range.
pub open spec fn lists_wf(lists: Seq<Vec<BuilderKey>>) -> bool {
    forall|w: int, k: int|
        0 <= w < lists.len() && 0 <= k < lists[w]@.len() ==> seq_wf(
            (#[trigger] lists[w]@[k]).shift_seq,
        )
}

/// The shift sequences of all keys under construction, word by word.
fn list_sequences(lists: &Vec<Vec<BuilderKey>>) -> (shift_seqs: Vec<[Shift; 2]>)
    requires
        lists_wf(lists@),
    ensures
        ({
            let groups = finished_words(lists@).flatten();
            &&& shift_seqs@.len() == groups.len()
            &&& forall|j: int|
                0 <= j < groups.len() ==> seq_wf(#[trigger] shift_seqs@[j]) && seq_code_model(
                    shift_seqs@[j],
                ) == groups[j].code % 262144
        }),
{
    let ghost words = finished_words(lists@);
    let ghost groups = words.flatten();
    let mut shift_seqs: Vec<[Shift; 2]> = Vec::new();
    let mut w: usize = 0;
    assert(words.take(0) =~= Seq::empty());
    while w < lists.len()
        invariant
            words == finished_words(lists@),
            groups == words.flatten(),
            lists_wf(lists@),
            w <= lists@.len(),
            shift_seqs@.len() == words.take(w as int).flatten().len(),
            forall|j: int|
                0 <= j < shift_seqs@.len() ==> seq_wf(#[trigger] shift_seqs@[j]) && seq_code_model(
                    shift_seqs@[j],
                ) == groups[j].code % 262144,
        decreases lists@.len() - w,
    {
        let ghost base = shift_seqs@.len();
        proof {
            lemma_flatten_index(words, w as int);
        }
        let mut k: usize = 0;
        while k < lists[w].len()
            invariant
                words == finished_words(lists@),
                groups == words.flatten(),
                lists_wf(lists@),
                w < lists@.len(),
                k <= lists@[w as int]@.len(),
                base == words.take(w as int).flatten().len(),
                shift_seqs@.len() == base + k,
                forall|k: int|
                    0 <= k < words[w as int].len() ==> groups[base + k]
                        == #[trigger] words[w as int][k],
                forall|j: int|
                    0 <= j < shift_seqs@.len() ==> seq_wf(#[trigger] shift_seqs@[j])
                        && seq_code_model(shift_seqs@[j]) == groups[j].code % 262144,
            decreases lists@[w as int]@.len() - k,
        {
            let key = &lists[w][k];
            proof {
                assert(seq_wf(lists@[w as int]@[k as int].shift_seq));
                assert(groups[base + k] == words[w as int][k as int]);
                lemma_key_code_parts(key.operation, seq_code_model(key.shift_seq));
            }
            shift_seqs.push(key.shift_seq);
            k += 1;
        }
        w += 1;
    }
    assert(words.take(w as int) =~= words);
    shift_seqs
}

impl KeySegment {
    /// Builds the segment's keys from the keys under construction of its words.
    pub fn build(builder_key_lists: &Vec<Vec<BuilderKey>>) -> (segment: Self)
        requires
            lists_wf(builder_key_lists@),
            finished_words(builder_key_lists@).flatten().len() <= u32::MAX,
            flat_constraints(finished_words(builder_key_lists@).flatten()).len() <= u32::MAX,
        ensures
            segment.represents(finished_words(builder_key_lists@)),
    {
        let ghost words = finished_words(builder_key_lists@);
        let ghost groups = words.flatten();
        let shift_seqs = list_sequences(builder_key_lists);
        let dense_shift_enc = DenseShiftEncoding::new(&shift_seqs);
        proof {
            assert forall|s: [Shift; 2]| #[trigger]
                dense_shift_enc.seqs().contains(s) implies exists|k: int|
                0 <= k < groups.len() && #[trigger] groups[k].code % 262144 == seq_code_model(
                    s,
                ) by {
                assert(shift_seqs@.contains(s));
                let j = choose|j: int| 0 <= j < shift_seqs@.len() && shift_seqs@[j] == s;
                assert(groups[j].code % 262144 == seq_code_model(s));
            }
        }
        let mut keys: Vec<Key> = Vec::new();
        let mut key_ranges: Vec<Range<u32>> = Vec::with_capacity(builder_key_lists.len());
        let mut constraint_indices: Vec<ConstraintIndex> = Vec::new();
        let mut w: usize = 0;
        proof {
            assert(words.take(0) =~= Seq::empty());
            assert(groups.take(0) =~= Seq::empty());
            assert(constraint_indices@ =~= flat_constraints(groups.take(0)));
        }
        while w < builder_key_lists.len()
            invariant
                words == finished_words(builder_key_lists@),
                groups == words.flatten(),
                lists_wf(builder_key_lists@),
                groups.len() <= u32::MAX,
                flat_constraints(groups).len() <= u32::MAX,
                shift_seqs@.len() == groups.len(),
                forall|j: int|
                    0 <= j < groups.len() ==> seq_wf(#[trigger] shift_seqs@[j]) && seq_code_model(
                        shift_seqs@[j],
                    ) == groups[j].code % 262144,
                dense_shift_enc.wf(),
                dense_shift_enc.seqs().len() <= 262144,
                forall|s: [Shift; 2]| #[trigger]
                    dense_shift_enc.seqs().contains(s) <==> shift_seqs@.contains(s),
                w <= words.len(),
                keys@.len() == words.take(w as int).flatten().len(),
                keys@.len() <= groups.len(),
                constraint_indices@ == flat_constraints(groups.take(keys@.len() as int)),
                forall|k: int|
                    0 <= k < keys@.len() ==> key_represents(
                        #[trigger] keys@[k],
                        dense_shift_enc,
                        groups,
                        k,
                    ),
                key_ranges@.len() == w,
                forall|v: int|
                    0 <= v < w ==> (#[trigger] key_ranges@[v]).start == words.take(
                        v,
                    ).flatten().len() && key_ranges@[v].end == words.take(v + 1).flatten().len(),
            decreases words.len() - w,
        {
            let first: u32 = keys.len() as u32;
            let ghost base = keys@.len();
            proof {
                lemma_flatten_index(words, w as int);
            }
            let mut k: usize = 0;
            while k < builder_key_lists[w].len()
                invariant
                    words == finished_words(builder_key_lists@),
                    groups == words.flatten(),
                    lists_wf(builder_key_lists@),
                    groups.len() <= u32::MAX,
                    flat_constraints(groups).len() <= u32::MAX,
                    shift_seqs@.len() == groups.len(),
                    forall|j: int|
                        0 <= j < groups.len() ==> seq_wf(#[trigger] shift_seqs@[j])
                            && seq_code_model(shift_seqs@[j]) == groups[j].code % 262144,
                    dense_shift_enc.wf(),
                    dense_shift_enc.seqs().len() <= 262144,
                    forall|s: [Shift; 2]| #[trigger]
                        dense_shift_enc.seqs().contains(s) <==> shift_seqs@.contains(s),
                    w < words.len(),
                    words.len() == builder_key_lists@.len(),
                    k <= builder_key_lists@[w as int]@.len(),
                    base == words.take(w as int).flatten().len(),
                    base + words[w as int].len() <= groups.len(),
                    forall|k: int|
                        0 <= k < words[w as int].len() ==> groups[base + k]
                            == #[trigger] words[w as int][k],
                    keys@.len() == base + k,
                    constraint_indices@ == flat_constraints(groups.take(keys@.len() as int)),
                    forall|k: int|
                        0 <= k < keys@.len() ==> key_represents(
                            #[trigger] keys@[k],
                            dense_shift_enc,
                            groups,
                            k,
                        ),
                decreases builder_key_lists@[w as int]@.len() - k,
            {
                let ghost at = base + k;
                let builder_key = &builder_key_lists[w][k];
                proof {
                    assert(seq_wf(builder_key_lists@[w as int]@[k as int].shift_seq));
                    assert(groups[at] == words[w as int][k as int]);
                    lemma_key_code_parts(
                        builder_key.operation,
                        seq_code_model(builder_key.shift_seq),
                    );
                    lemma_flat_constraints_take(groups, at);
                    assert(shift_seqs@[at] == builder_key.shift_seq) by {
                        lemma_seq_code_injective(shift_seqs@[at], builder_key.shift_seq);
                    }
                    assert(shift_seqs@.contains(shift_seqs@[at]));
                }
                // The references of a key stand by operand position, so a later linear scan can
                // detect each operand's boundary with no extra bookkeeping.
                let mut sorted = sort_by_operand(&builder_key.constraint_indices);
                let start: u32 = constraint_indices.len() as u32;
                let ghost before = constraint_indices@;
                constraint_indices.append(&mut sorted);
                assert(constraint_indices@ =~= flat_constraints(groups.take(at + 1)));
                let end: u32 = constraint_indices.len() as u32;
                let key = Key {
                    operation: builder_key.operation,
                    dense_shift_idx: dense_shift_enc.dense_idx(builder_key.shift_seq),
                    range: start..end,
                };
                assert(key_represents(key, dense_shift_enc, groups, at));
                keys.push(key);
                k += 1;
            }
            key_ranges.push(first..keys.len() as u32);
            w += 1;
        }
        assert(words.take(w as int) =~= words);
        assert(groups.take(keys@.len() as int) =~= groups);
        KeySegment { keys, key_ranges, constraint_indices, dense_shift_enc }
    }
}

/// A word's groups with one use more.
spec fn with_use(groups: Seq<KeyGroup>, at: int, code: int, constraint: ConstraintIndex) -> Seq<
    KeyGroup,
> {
    if at < groups.len() {
        groups.update(
            at,
            KeyGroup { code, constraints: groups[at].constraints.push(constraint) },
        )
    } else {
        groups.push(KeyGroup { code, constraints: seq![constraint] })
    }
}

/// One use more goes to the group with its code, or begins one.
proof fn lemma_word_groups_push(refs: Seq<KeyedRef>, r: KeyedRef, at: int)
    requires
        0 <= at <= word_groups(refs).len(),
        at < word_groups(refs).len() ==> word_groups(refs)[at].code == r.code,
        at == word_groups(refs).len() ==> forall|k: int|
            0 <= k < word_groups(refs).len() ==> (#[trigger] word_groups(refs)[k]).code != r.code,
    ensures
        word_groups(refs.push(r)) == with_use(word_groups(refs), at, r.code, r.constraint),
{
    let next = refs.push(r);
    let codes = first_codes(refs);
    lemma_first_codes(refs);
    assert(next.drop_last() =~= refs);
    if at < codes.len() {
        assert(codes[at] == r.code);
        assert(codes.contains(r.code));
        assert(word_groups(next) =~= with_use(word_groups(refs), at, r.code, r.constraint));
    } else {
        assert forall|k: int| 0 <= k < codes.len() implies codes[k] != r.code by {
            assert(word_groups(refs)[k].code != r.code);
        }
        assert(!codes.contains(r.code));
        lemma_no_key_constraints(refs, r.code);
        assert(key_constraints(next, r.code) =~= seq![r.constraint]);
        assert(word_groups(next) =~= with_use(word_groups(refs), at, r.code, r.constraint));
    }
}

/// Whether each word's list holds the word's groups.
spec fn lists_hold(lists: Seq<Vec<BuilderKey>>, references: Seq<Reference>) -> bool {
    &&& lists_wf(lists)
    &&& forall|w: int|
        0 <= w < lists.len() ==> list_groups((#[trigger] lists[w])@) == word_groups(
            word_references(references, w),
        )
}

/// Adds one reference to its word's list: to the key with its shifts and its operation, or under a
/// new key.
fn add_reference(
    lists: &mut Vec<Vec<BuilderKey>>,
    word: usize,
    shift_seq: [Shift; 2],
    operation: Operation,
    constraint_index: ConstraintIndex,
    references: Ghost<Seq<Reference>>,
)
    requires
        word < old(lists)@.len(),
        seq_wf(shift_seq),
        lists_hold(old(lists)@, references@),
    ensures
        final(lists)@.len() == old(lists)@.len(),
        lists_hold(
            final(lists)@,
            references@.push(
                Reference {
                    word: word as int,
                    keyed: KeyedRef {
                        code: key_code(operation, seq_code_model(shift_seq)),
                        constraint: constraint_index,
                    },
                },
            ),
        ),
{
    let ghost code = key_code(operation, seq_code_model(shift_seq));
    let ghost r = Reference {
        word: word as int,
        keyed: KeyedRef { code, constraint: constraint_index },
    };
    let ghost before = lists@;
    let ghost list = lists@[word as int]@;
    let mut at: usize = 0;
    while at < lists[word].len() && !(lists[word][at].shift_seq[0] == shift_seq[0]
        && lists[word][at].shift_seq[1] == shift_seq[1] && lists[word][at].operation == operation)
        invariant
            lists@ == before,
            list == lists@[word as int]@,
            word < lists@.len(),
            lists_wf(lists@),
            seq_wf(shift_seq),
            code == key_code(operation, seq_code_model(shift_seq)),
            at <= list.len(),
            forall|k: int| 0 <= k < at ==> (#[trigger] list[k]).code() != code,
        decreases list.len() - at,
    {
        proof {
            let key = list[at as int];
            assert(seq_wf(lists@[word as int]@[at as int].shift_seq));
            if key.code() == code {
                lemma_key_code_parts(operation, seq_code_model(shift_seq));
                lemma_key_code_parts(key.operation, seq_code_model(key.shift_seq));
                lemma_seq_code_injective(key.shift_seq, shift_seq);
            }
        }
        at += 1;
    }
    proof {
        let groups = word_groups(word_references(references@, word as int));
        assert(list_groups(list) == groups);
        assert(groups.len() == list.len());
        if at < list.len() {
            assert(groups[at as int] == list[at as int].group());
        }
        assert forall|k: int| 0 <= k < at implies (#[trigger] groups[k]).code != code by {
            assert(groups[k] == list[k].group());
        }
        lemma_word_groups_push(word_references(references@, word as int), r.keyed, at as int);
        assert forall|w: int| 0 <= w < before.len() implies #[trigger] word_references(
            references@.push(r),
            w,
        ) == if w == word {
            word_references(references@, w).push(r.keyed)
        } else {
            word_references(references@, w)
        } by {
            lemma_word_references_push(references@, r, w);
        }
    }
    if at < lists[word].len() {
        lists[word][at].constraint_indices.push(constraint_index);
    } else {
        let mut constraint_indices: Vec<ConstraintIndex> = Vec::new();
        constraint_indices.push(constraint_index);
        assert(constraint_indices@ =~= seq![constraint_index]);
        lists[word].push(BuilderKey { shift_seq, operation, constraint_indices });
    }
    proof {
        let groups = word_groups(word_references(references@, word as int));
        assert(list_groups(lists@[word as int]@) =~= with_use(
            groups,
            at as int,
            code,
            constraint_index,
        ));
        assert forall|w: int| 0 <= w < lists@.len() implies list_groups((#[trigger] lists@[w])@)
            == word_groups(word_references(references@.push(r), w)) by {
            assert(word_references(references@.push(r), w) == if w == word {
                word_references(references@, w).push(r.keyed)
            } else {
                word_references(references@, w)
            });
            if w != word {
                assert(lists@[w] == before[w]);
            }
        }
        assert forall|w: int, k: int|
            0 <= w < lists@.len() && 0 <= k < lists@[w]@.len() implies seq_wf(
            (#[trigger] lists@[w]@[k]).shift_seq,
        ) by {
            if w != word {
                assert(lists@[w] == before[w]);
                assert(seq_wf(before[w]@[k].shift_seq));
            } else if k < list.len() {
                assert(seq_wf(before[w]@[k].shift_seq));
            }
        }
    }
}

/// Adds the references that the operands at one position make, constraint by constraint.
fn update_with_operand<C: Constraint>(
    lists: &mut Vec<Vec<BuilderKey>>,
    operation: Operation,
    operand_index: usize,
    constraints: &Vec<C>,
    cs: &ConstraintSystem,
    references: Ghost<Seq<Reference>>,
)
    requires
        cs.deep_view().value_vec_len() == old(lists)@.len() <= usize::MAX,
        cs.deep_view().constraints_valid(constraints_model(constraints@)),
        operand_index < C::arity_model(),
        operand_index < 256,
        lists_hold(old(lists)@, references@),
    ensures
        final(lists)@.len() == old(lists)@.len(),
        lists_hold(
            final(lists)@,
            references@ + position_references(
                cs.deep_view(),
                operation,
                operand_index as int,
                constraints_model(constraints@),
                constraints@.len() as int,
            ),
        ),
{
    let ghost csm = cs.deep_view();
    let ghost model = constraints_model(constraints@);
    let ghost mut seen = references@;
    let mut constraint_index: usize = 0;
    assert(seen =~= references@ + position_references(
        csm,
        operation,
        operand_index as int,
        model,
        0,
    ));
    while constraint_index < constraints.len()
        invariant
            csm == cs.deep_view(),
            model == constraints_model(constraints@),
            csm.value_vec_len() == lists@.len() <= usize::MAX,
            lists@.len() == old(lists)@.len(),
            csm.constraints_valid(model),
            operand_index < C::arity_model(),
            operand_index < 256,
            constraint_index <= constraints@.len(),
            lists_hold(lists@, seen),
            seen == references@ + position_references(
                csm,
                operation,
                operand_index as int,
                model,
                constraint_index as int,
            ),
        decreases constraints@.len() - constraint_index,
    {
        let operand = constraints[constraint_index].operand(operand_index);
        let ghost terms = model[constraint_index as int][operand_index as int];
        assert(operand.deep_view() == terms);
        let ghost before = seen;
        let ghost all = operand_references(
            csm,
            operation,
            operand_index as int,
            constraint_index as int,
            terms,
        );
        let mut t: usize = 0;
        assert(seen =~= before + all.take(0));
        while t < operand.len()
            invariant
                csm == cs.deep_view(),
                csm.value_vec_len() == lists@.len() <= usize::MAX,
                lists@.len() == old(lists)@.len(),
                csm.constraints_valid(model),
                0 <= constraint_index < model.len(),
                0 <= operand_index < model[constraint_index as int].len(),
                operand_index < 256,
                terms == model[constraint_index as int][operand_index as int],
                operand.deep_view() == terms,
                all == operand_references(
                    csm,
                    operation,
                    operand_index as int,
                    constraint_index as int,
                    terms,
                ),
                t <= operand@.len(),
                lists_hold(lists@, seen),
                seen == before + all.take(t as int),
            decreases operand@.len() - t,
        {
            let term = operand[t];
            assert(terms[t as int] == term.deep_view());
            assert(csm.term_valid(model[constraint_index as int][operand_index as int][t as int]));
            let word: usize = cs.word_offset(term.value_index);
            let ghost r = term_reference(
                csm,
                operation,
                operand_index as int,
                constraint_index as int,
                terms[t as int],
            );
            add_reference(
                lists,
                word,
                term.shift_seq,
                operation,
                ConstraintIndex {
                    operand_index: operand_index as u8,
                    constraint_index: constraint_index as u32,
                },
                Ghost(seen),
            );
            proof {
                assert(all[t as int] == r);
                seen = seen.push(r);
                assert(seen =~= before + all.take(t + 1));
            }
            t += 1;
        }
        proof {
            assert(all.take(t as int) =~= all);
            assert(seen =~= references@ + position_references(
                csm,
                operation,
                operand_index as int,
                model,
                constraint_index + 1,
            ));
        }
        constraint_index += 1;
    }
}

/// Adds the references of one operation's constraints, operand position by operand position.
fn update_with_constraints<C: Constraint>(
    lists: &mut Vec<Vec<BuilderKey>>,
    operation: Operation,
    constraints: &Vec<C>,
    cs: &ConstraintSystem,
    references: Ghost<Seq<Reference>>,
)
    requires
        cs.deep_view().value_vec_len() == old(lists)@.len() <= usize::MAX,
        cs.deep_view().constraints_valid(constraints_model(constraints@)),
        lists_hold(old(lists)@, references@),
    ensures
        final(lists)@.len() == old(lists)@.len(),
        lists_hold(
            final(lists)@,
            references@ + operation_references(
                cs.deep_view(),
                operation,
                constraints_model(constraints@),
                C::arity_model() as int,
            ),
        ),
{
    let ghost csm = cs.deep_view();
    let ghost model = constraints_model(constraints@);
    let ghost mut seen = references@;
    let arity: usize = C::arity();
    let mut operand_index: usize = 0;
    assert(seen =~= references@ + operation_references(csm, operation, model, 0));
    while operand_index < arity
        invariant
            csm == cs.deep_view(),
            model == constraints_model(constraints@),
            csm.value_vec_len() == lists@.len() <= usize::MAX,
            lists@.len() == old(lists)@.len(),
            csm.constraints_valid(model),
            arity == C::arity_model(),
            operand_index <= arity < 256,
            lists_hold(lists@, seen),
            seen == references@ + operation_references(
                csm,
                operation,
                model,
                operand_index as int,
            ),
        decreases arity - operand_index,
    {
        update_with_operand(lists, operation, operand_index, constraints, cs, Ghost(seen));
        proof {
            seen = seen + position_references(
                csm,
                operation,
                operand_index as int,
                model,
                constraints@.len() as int,
            );
            assert(seen =~= references@ + operation_references(
                csm,
                operation,
                model,
                operand_index + 1,
            ));
        }
        operand_index += 1;
    }
}

/// The lists of the words `first..`, finished, are the words' groups.
proof fn lemma_finished_words(
    lists: Seq<Vec<BuilderKey>>,
    references: Seq<Reference>,
    first: int,
    words: Seq<Seq<KeyGroup>>,
)
    requires
        codes_ascend(keyed(references)),
        words.len() == lists.len(),
        forall|w: int|
            0 <= w < lists.len() ==> list_groups((#[trigger] lists[w])@) == word_groups(
                word_references(references, first + w),
            ),
        forall|w: int|
            0 <= w < words.len() ==> #[trigger] words[w] == word_groups(
                word_references(references, first + w),
            ),
    ensures
        finished_words(lists) == words,
{
    assert forall|w: int| 0 <= w < lists.len() implies #[trigger] finished_words(lists)[w]
        == words[w] by {
        let refs = word_references(references, first + w);
        let list = lists[w]@;
        assert(list_groups(lists[w]@) == word_groups(refs));
        assert(list_groups(list).len() == list.len());
        lemma_word_references_ascend(references, first + w);
        assert forall|k: int| 0 <= k < list.len() implies #[trigger] finished_groups(list)[k]
            == word_groups(refs)[k] by {
            assert(list_groups(list)[k] == list[k].group());
            lemma_key_constraints_ascend(refs, first_codes(refs)[k]);
            lemma_sorted_already(list[k].constraint_indices@);
        }
        assert(finished_groups(list) =~= word_groups(refs));
        assert(words[w] == word_groups(refs));
    }
    assert(finished_words(lists) =~= words);
}

/// The one-pass builder. It takes the systems that the counting-sort builder takes, and builds the
/// same collections.
pub fn build_key_collection_reference(cs: &ConstraintSystem, inout: InoutSegment) -> (collection:
    KeyCollection)
    requires
        cs.deep_view().valid(),
        references(cs.deep_view()).len() <= u32::MAX,
    ensures
        collection.represents(cs.deep_view(), inout),
{
    let ghost csm = cs.deep_view();
    let ghost all = references(csm);
    let n_words: usize = cs.value_vec_len();
    let n_public: usize = cs.n_public_words(inout);
    let mut lists: Vec<Vec<BuilderKey>> = Vec::with_capacity(n_words);
    let mut w: usize = 0;
    let ghost none = Seq::<Reference>::empty();
    while w < n_words
        invariant
            w <= n_words,
            lists@.len() == w,
            forall|v: int| 0 <= v < w ==> (#[trigger] lists@[v])@.len() == 0,
        decreases n_words - w,
    {
        lists.push(Vec::new());
        w += 1;
    }
    proof {
        assert forall|v: int| 0 <= v < lists@.len() implies list_groups((#[trigger] lists@[v])@)
            == word_groups(word_references(none, v)) by {
            none.lemma_filter_len(|r: Reference| r.word == v);
            assert(list_groups(lists@[v]@) =~= word_groups(word_references(none, v)));
        }
    }
    let ghost zero = operation_references(csm, Operation::Zero, csm.zero_constraints, 1);
    let ghost and = operation_references(csm, Operation::BitwiseAnd, csm.and_constraints, 3);
    let ghost imul = operation_references(csm, Operation::IntegerMul, csm.imul_constraints, 4);
    update_with_constraints(&mut lists, Operation::Zero, &cs.zero_constraints, cs, Ghost(none));
    assert(none + zero =~= zero);
    update_with_constraints(
        &mut lists,
        Operation::BitwiseAnd,
        &cs.and_constraints,
        cs,
        Ghost(zero),
    );
    update_with_constraints(
        &mut lists,
        Operation::IntegerMul,
        &cs.imul_constraints,
        cs,
        Ghost(zero + and),
    );
    update_with_constraints(
        &mut lists,
        Operation::BinMul,
        &cs.bmul_constraints,
        cs,
        Ghost(zero + and + imul),
    );
    assert(lists_hold(lists@, all));
    let ghost whole = lists@;
    let hidden = lists.split_off(n_public);
    proof {
        lemma_references_ascend(*cs);
        lemma_segment_size(all, 0, n_public as int);
        lemma_segment_size(all, n_public as int, n_words as int);
        lemma_count_below_bounds(all, 0);
        lemma_count_below_bounds(all, n_public as int);
        lemma_count_below_bounds(all, n_words as int);
        lemma_finished_words(lists@, all, 0, public_groups(csm, inout));
        lemma_finished_words(hidden@, all, n_public as int, hidden_groups(csm, inout));
    }
    KeyCollection { public: KeySegment::build(&lists), hidden: KeySegment::build(&hidden) }
}

} // verus!
