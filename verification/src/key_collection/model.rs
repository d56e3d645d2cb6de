//! What a key collection is, as mathematics: the references in walk order, and their grouping
//! into keys.

use vstd::prelude::*;

use crate::constraint_system::{ConstraintSystem, ConstraintSystemModel, InoutSegment, Term};
use crate::key_collection::key::{ConstraintIndex, Operation};

verus! {

/// A use of a word without the word: the code of its key, and the operand that makes it.
pub ghost struct KeyedRef {
    pub code: int,
    pub constraint: ConstraintIndex,
}

/// A use of a word.
pub ghost struct Reference {
    pub word: int,
    pub keyed: KeyedRef,
}

/// The uses of one word under one key.
pub ghost struct KeyGroup {
    pub code: int,
    pub constraints: Seq<ConstraintIndex>,
}

/// The code of a key: the operation above the code of the shift sequence.
pub open spec fn key_code(operation: Operation, seq_code: int) -> int {
    operation.code_model() * 262144 + seq_code
}

/// The use that one term makes.
pub open spec fn term_reference(
    cs: ConstraintSystemModel,
    operation: Operation,
    operand_index: int,
    constraint_index: int,
    term: Term,
) -> Reference {
    Reference {
        word: cs.word_offset(term.value_index),
        keyed: KeyedRef {
            code: key_code(operation, term.seq_code()),
            constraint: ConstraintIndex {
                operand_index: operand_index as u8,
                constraint_index: constraint_index as u32,
            },
        },
    }
}

/// The uses that the terms of one operand make.
pub open spec fn operand_references(
    cs: ConstraintSystemModel,
    operation: Operation,
    operand_index: int,
    constraint_index: int,
    operand: Seq<Term>,
) -> Seq<Reference> {
    operand.map_values(
        |term: Term| term_reference(cs, operation, operand_index, constraint_index, term),
    )
}

/// The uses that the operands at one position of the first `n` constraints make.
pub open spec fn position_references(
    cs: ConstraintSystemModel,
    operation: Operation,
    operand_index: int,
    constraints: Seq<Seq<Seq<Term>>>,
    n: int,
) -> Seq<Reference>
    decreases n,
{
    if n <= 0 {
        Seq::empty()
    } else {
        position_references(cs, operation, operand_index, constraints, n - 1)
            + operand_references(
            cs,
            operation,
            operand_index,
            n - 1,
            constraints[n - 1][operand_index],
        )
    }
}

/// The uses that the first `n` operand positions of an operation's constraints make.
pub open spec fn operation_references(
    cs: ConstraintSystemModel,
    operation: Operation,
    constraints: Seq<Seq<Seq<Term>>>,
    n: int,
) -> Seq<Reference>
    decreases n,
{
    if n <= 0 {
        Seq::empty()
    } else {
        operation_references(cs, operation, constraints, n - 1) + position_references(
            cs,
            operation,
            n - 1,
            constraints,
            constraints.len() as int,
        )
    }
}

/// Every use, in walk order: by operation, then by operand position, then by constraint, then by
/// term.
pub open spec fn references(cs: ConstraintSystemModel) -> Seq<Reference> {
    operation_references(cs, Operation::Zero, cs.zero_constraints, 1) + operation_references(
        cs,
        Operation::BitwiseAnd,
        cs.and_constraints,
        3,
    ) + operation_references(cs, Operation::IntegerMul, cs.imul_constraints, 4)
        + operation_references(cs, Operation::BinMul, cs.bmul_constraints, 6)
}

/// The uses of one word, in walk order.
pub open spec fn word_references(references: Seq<Reference>, word: int) -> Seq<KeyedRef> {
    references.filter(|r: Reference| r.word == word).map_values(|r: Reference| r.keyed)
}

/// The codes that occur, each once, in the order in which they first appear.
pub open spec fn first_codes(refs: Seq<KeyedRef>) -> Seq<int>
    decreases refs.len(),
{
    if refs.len() == 0 {
        Seq::empty()
    } else {
        let before = first_codes(refs.drop_last());
        if before.contains(refs.last().code) {
            before
        } else {
            before.push(refs.last().code)
        }
    }
}

/// The uses under one code, in walk order.
pub open spec fn key_constraints(refs: Seq<KeyedRef>, code: int) -> Seq<ConstraintIndex>
    decreases refs.len(),
{
    if refs.len() == 0 {
        Seq::empty()
    } else {
        let before = key_constraints(refs.drop_last(), code);
        if refs.last().code == code {
            before.push(refs.last().constraint)
        } else {
            before
        }
    }
}

/// The keys of one word: by first appearance, each with its uses in walk order.
pub open spec fn word_groups(refs: Seq<KeyedRef>) -> Seq<KeyGroup> {
    first_codes(refs).map_values(
        |code: int| KeyGroup { code, constraints: key_constraints(refs, code) },
    )
}

/// The keys of each of the words `first..last`.
pub open spec fn segment_groups(
    references: Seq<Reference>,
    first: int,
    last: int,
) -> Seq<Seq<KeyGroup>> {
    Seq::new(
        (last - first) as nat,
        |w: int| word_groups(word_references(references, first + w)),
    )
}

/// The keys of each word of the public half.
pub open spec fn public_groups(cs: ConstraintSystemModel, inout: InoutSegment) -> Seq<
    Seq<KeyGroup>,
> {
    segment_groups(references(cs), 0, cs.n_public_words(inout))
}

/// The keys of each word of the hidden half.
pub open spec fn hidden_groups(cs: ConstraintSystemModel, inout: InoutSegment) -> Seq<
    Seq<KeyGroup>,
> {
    segment_groups(references(cs), cs.n_public_words(inout), cs.value_vec_len())
}

/// The uses of a list of keys, one key after the other.
pub open spec fn flat_constraints(groups: Seq<KeyGroup>) -> Seq<ConstraintIndex>
    decreases groups.len(),
{
    if groups.len() == 0 {
        Seq::empty()
    } else {
        flat_constraints(groups.drop_last()) + groups.last().constraints
    }
}

/// A code occurs among the first codes if and only if some use has it, and no code occurs twice.
pub proof fn lemma_first_codes(refs: Seq<KeyedRef>)
    ensures
        first_codes(refs).no_duplicates(),
        first_codes(refs).len() <= refs.len(),
        forall|i: int| 0 <= i < refs.len() ==> first_codes(refs).contains(#[trigger] refs[i].code),
        forall|code: int| #[trigger]
            first_codes(refs).contains(code) ==> exists|i: int|
                0 <= i < refs.len() && #[trigger] refs[i].code == code,
    decreases refs.len(),
{
    if refs.len() > 0 {
        let prefix = refs.drop_last();
        let before = first_codes(prefix);
        lemma_first_codes(prefix);
        let code = refs.last().code;
        if !before.contains(code) {
            assert(before.push(code)[before.len() as int] == code);
            assert forall|c: int| before.contains(c) implies #[trigger] before.push(code).contains(
                c,
            ) by {
                let k = choose|k: int| 0 <= k < before.len() && before[k] == c;
                assert(before.push(code)[k] == c);
            }
        }
        assert forall|i: int| 0 <= i < refs.len() implies first_codes(refs).contains(
            #[trigger] refs[i].code,
        ) by {
            if i < refs.len() - 1 {
                assert(prefix[i].code == refs[i].code);
            }
        }
        assert forall|c: int| #[trigger] first_codes(refs).contains(c) implies exists|i: int|
            0 <= i < refs.len() && #[trigger] refs[i].code == c by {
            if before.contains(c) {
                let i = choose|i: int| 0 <= i < prefix.len() && #[trigger] prefix[i].code == c;
                assert(refs[i].code == c);
            } else {
                assert(refs[refs.len() - 1].code == c);
            }
        }
    }
}

/// A code that no use has, has no uses.
pub proof fn lemma_no_key_constraints(refs: Seq<KeyedRef>, code: int)
    requires
        !first_codes(refs).contains(code),
    ensures
        key_constraints(refs, code).len() == 0,
    decreases refs.len(),
{
    if refs.len() > 0 {
        lemma_first_codes(refs);
        assert(first_codes(refs).contains(refs[refs.len() - 1].code));
        let before = first_codes(refs.drop_last());
        if before.contains(code) {
            let k = choose|k: int| 0 <= k < before.len() && before[k] == code;
            assert(first_codes(refs)[k] == code);
        }
        lemma_no_key_constraints(refs.drop_last(), code);
    }
}

/// Uses that all have one code are all under it.
pub proof fn lemma_single_code(refs: Seq<KeyedRef>, code: int)
    requires
        forall|i: int| 0 <= i < refs.len() ==> #[trigger] refs[i].code == code,
    ensures
        key_constraints(refs, code) == refs.map_values(|r: KeyedRef| r.constraint),
    decreases refs.len(),
{
    if refs.len() > 0 {
        let prefix = refs.drop_last();
        assert forall|i: int| 0 <= i < prefix.len() implies #[trigger] prefix[i].code == code by {
            assert(prefix[i] == refs[i]);
        }
        lemma_single_code(prefix, code);
        assert(refs[refs.len() - 1].code == code);
    }
    assert(key_constraints(refs, code) =~= refs.map_values(|r: KeyedRef| r.constraint));
}

/// The uses of a list of keys, in two parts.
pub proof fn lemma_flat_constraints_add(a: Seq<KeyGroup>, b: Seq<KeyGroup>)
    ensures
        flat_constraints(a + b) == flat_constraints(a) + flat_constraints(b),
    decreases b.len(),
{
    if b.len() == 0 {
        assert(a + b =~= a);
        assert(flat_constraints(a) + flat_constraints(b) =~= flat_constraints(a));
    } else {
        assert((a + b).drop_last() =~= a + b.drop_last());
        lemma_flat_constraints_add(a, b.drop_last());
        assert(flat_constraints(a + b) =~= flat_constraints(a) + flat_constraints(b));
    }
}

/// The uses of the keys up to one key are that key's behind those of the keys before it.
pub proof fn lemma_flat_constraints_take(groups: Seq<KeyGroup>, k: int)
    requires
        0 <= k < groups.len(),
    ensures
        flat_constraints(groups.take(k + 1)) == flat_constraints(groups.take(k))
            + groups[k].constraints,
        flat_constraints(groups.take(k)).len() + groups[k].constraints.len() == flat_constraints(
            groups.take(k + 1),
        ).len(),
        flat_constraints(groups.take(k + 1)).len() <= flat_constraints(groups).len(),
{
    assert(groups.take(k + 1).drop_last() =~= groups.take(k));
    assert(groups =~= groups.take(k + 1) + groups.skip(k + 1));
    lemma_flat_constraints_add(groups.take(k + 1), groups.skip(k + 1));
}

/// More keys have no fewer uses.
pub proof fn lemma_flat_constraints_monotone(groups: Seq<KeyGroup>, j: int, k: int)
    requires
        0 <= j <= k <= groups.len(),
    ensures
        flat_constraints(groups.take(j)).len() <= flat_constraints(groups.take(k)).len(),
        flat_constraints(groups.take(k)).len() <= flat_constraints(groups).len(),
{
    assert(groups.take(k) =~= groups.take(j) + groups.subrange(j, k));
    lemma_flat_constraints_add(groups.take(j), groups.subrange(j, k));
    assert(groups =~= groups.take(k) + groups.skip(k));
    lemma_flat_constraints_add(groups.take(k), groups.skip(k));
}

/// A sequence that holds each key's uses in the key's place is the uses of the keys.
pub proof fn lemma_flat_constraints_pointwise(groups: Seq<KeyGroup>, s: Seq<ConstraintIndex>)
    requires
        s.len() == flat_constraints(groups).len(),
        forall|k: int, t: int|
            0 <= k < groups.len() && 0 <= t < groups[k].constraints.len() ==> s[flat_constraints(
                groups.take(k),
            ).len() + t] == #[trigger] groups[k].constraints[t],
    ensures
        s == flat_constraints(groups),
    decreases groups.len(),
{
    if groups.len() == 0 {
        assert(s =~= flat_constraints(groups));
    } else {
        let prefix = groups.drop_last();
        let last = groups.last().constraints;
        let n = flat_constraints(prefix).len() as int;
        assert(prefix =~= groups.take(groups.len() - 1));
        assert forall|k: int, t: int|
            0 <= k < prefix.len() && 0 <= t < prefix[k].constraints.len() implies s.take(n)[flat_constraints(
            prefix.take(k),
        ).len() + t] == #[trigger] prefix[k].constraints[t] by {
            assert(prefix.take(k) =~= groups.take(k));
            assert(prefix[k] == groups[k]);
            lemma_flat_constraints_take(prefix, k);
            assert(s[flat_constraints(groups.take(k)).len() + t] == groups[k].constraints[t]);
        }
        lemma_flat_constraints_pointwise(prefix, s.take(n));
        assert forall|t: int| 0 <= t < last.len() implies s[n + t] == #[trigger] last[t] by {
            assert(s[n + t] == groups[groups.len() - 1].constraints[t]);
        }
        assert(s =~= s.take(n) + last) by {
            assert forall|i: int| 0 <= i < s.len() implies s[i] == (s.take(n) + last)[i] by {
                if i >= n {
                    assert(s[n + (i - n)] == last[i - n]);
                }
            }
        }
    }
}

/// One key with one use more makes one use more in all.
proof fn lemma_flat_constraints_grow(a: Seq<KeyGroup>, b: Seq<KeyGroup>, at: int)
    requires
        a.len() == b.len(),
        0 <= at < a.len(),
        b[at].constraints.len() == a[at].constraints.len() + 1,
        forall|k: int| 0 <= k < a.len() && k != at ==> #[trigger] b[k] == a[k],
    ensures
        flat_constraints(b).len() == flat_constraints(a).len() + 1,
    decreases a.len(),
{
    if at == a.len() - 1 {
        assert(a.drop_last() =~= b.drop_last());
    } else {
        assert(b[a.len() - 1] == a[a.len() - 1]);
        lemma_flat_constraints_grow(a.drop_last(), b.drop_last(), at);
    }
}

/// Grouping keeps every use.
pub proof fn lemma_word_groups_size(refs: Seq<KeyedRef>)
    ensures
        flat_constraints(word_groups(refs)).len() == refs.len(),
    decreases refs.len(),
{
    if refs.len() > 0 {
        let prefix = refs.drop_last();
        let code = refs.last().code;
        let before = word_groups(prefix);
        let after = word_groups(refs);
        lemma_word_groups_size(prefix);
        lemma_first_codes(prefix);
        let codes = first_codes(prefix);
        if codes.contains(code) {
            let at = choose|at: int| 0 <= at < codes.len() && codes[at] == code;
            assert forall|k: int| 0 <= k < before.len() && k != at implies #[trigger] after[k]
                == before[k] by {
                assert(codes[k] != code);
            }
            lemma_flat_constraints_grow(before, after, at);
        } else {
            lemma_no_key_constraints(prefix, code);
            assert forall|k: int| 0 <= k < before.len() implies #[trigger] after[k]
                == before[k] by {
                assert(codes.contains(codes[k]));
            }
            assert(after.drop_last() =~= before);
            assert(after.last().constraints.len() == 1);
        }
    }
}

/// One use more, after those of a list.
pub proof fn lemma_word_references_push(references: Seq<Reference>, r: Reference, word: int)
    ensures
        word_references(references.push(r), word) == if r.word == word {
            word_references(references, word).push(r.keyed)
        } else {
            word_references(references, word)
        },
{
    let pred = |r: Reference| r.word == word;
    references.lemma_filter_push(r, pred);
    assert(word_references(references.push(r), word) =~= if r.word == word {
        word_references(references, word).push(r.keyed)
    } else {
        word_references(references, word)
    });
}

/// The number of uses of the words before `word`.
pub open spec fn count_below(references: Seq<Reference>, word: int) -> nat
    decreases references.len(),
{
    if references.len() == 0 {
        0
    } else {
        let before = count_below(references.drop_last(), word);
        if references.last().word < word {
            before + 1
        } else {
            before
        }
    }
}

/// The uses of one word follow those of the words before it.
pub proof fn lemma_count_below_step(references: Seq<Reference>, word: int)
    ensures
        count_below(references, word + 1) == count_below(references, word) + word_references(
            references,
            word,
        ).len(),
    decreases references.len(),
{
    if references.len() == 0 {
        assert(references.filter(|r: Reference| r.word == word).len() <= references.len());
    } else {
        let prefix = references.drop_last();
        lemma_count_below_step(prefix, word);
        lemma_word_references_push(prefix, references.last(), word);
        assert(prefix.push(references.last()) =~= references);
    }
}

/// No use is of a word below the first, and all are of words below the bound.
pub proof fn lemma_count_below_ends(references: Seq<Reference>, n_words: int)
    requires
        forall|i: int| 0 <= i < references.len() ==> 0 <= (#[trigger] references[i]).word < n_words,
    ensures
        count_below(references, 0) == 0,
        count_below(references, n_words) == references.len(),
    decreases references.len(),
{
    if references.len() > 0 {
        let prefix = references.drop_last();
        assert forall|i: int| 0 <= i < prefix.len() implies 0 <= (#[trigger] prefix[i]).word
            < n_words by {
            assert(prefix[i] == references[i]);
        }
        lemma_count_below_ends(prefix, n_words);
        assert(references[references.len() - 1] == references.last());
    }
}

/// The number of uses below a word grows with the word.
pub proof fn lemma_count_below_monotone(references: Seq<Reference>, a: int, b: int)
    requires
        a <= b,
    ensures
        count_below(references, a) <= count_below(references, b),
    decreases references.len(),
{
    if references.len() > 0 {
        lemma_count_below_monotone(references.drop_last(), a, b);
    }
}

/// A prefix of a list has no more uses of a word than the list.
pub proof fn lemma_word_references_prefix(references: Seq<Reference>, n: int, word: int)
    requires
        0 <= n <= references.len(),
    ensures
        word_references(references.take(n), word).len() <= word_references(references, word).len(),
    decreases references.len() - n,
{
    if n < references.len() {
        lemma_word_references_prefix(references, n + 1, word);
        assert(references.take(n + 1) =~= references.take(n).push(references[n]));
        lemma_word_references_push(references.take(n), references[n], word);
    } else {
        assert(references.take(n) =~= references);
    }
}

/// Where the items of one list stand when lists are laid one behind the other.
pub proof fn lemma_flatten_index<A>(lists: Seq<Seq<A>>, w: int)
    requires
        0 <= w < lists.len(),
    ensures
        lists.take(w + 1).flatten() == lists.take(w).flatten() + lists[w],
        lists.take(w + 1).flatten().len() <= lists.flatten().len(),
        forall|k: int|
            0 <= k < lists[w].len() ==> lists.flatten()[lists.take(w).flatten().len() + k]
                == #[trigger] lists[w][k],
{
    assert(lists.take(w + 1) =~= lists.take(w).push(lists[w]));
    lists.take(w).lemma_flatten_push(lists[w]);
    assert(lists =~= lists.take(w + 1) + lists.skip(w + 1));
    vstd::seq_lib::lemma_flatten_concat(lists.take(w + 1), lists.skip(w + 1));
}

/// A key's code splits into the operation and the code of the shift sequence.
pub proof fn lemma_key_code_parts(operation: Operation, seq_code: int)
    requires
        0 <= seq_code < 262144,
    ensures
        key_code(operation, seq_code) / 262144 == operation.code_model(),
        key_code(operation, seq_code) % 262144 == seq_code,
{
}

/// No more references go below a word than there are.
pub proof fn lemma_count_below_bounds(references: Seq<Reference>, word: int)
    ensures
        count_below(references, word) <= references.len(),
    decreases references.len(),
{
    if references.len() > 0 {
        lemma_count_below_bounds(references.drop_last(), word);
    }
}

/// A segment has no more keys, and no more uses in them, than there are references.
pub proof fn lemma_segment_size(references: Seq<Reference>, first: int, last: int)
    requires
        first <= last,
    ensures
        segment_groups(references, first, last).flatten().len() <= flat_constraints(
            segment_groups(references, first, last).flatten(),
        ).len(),
        flat_constraints(segment_groups(references, first, last).flatten()).len() == count_below(
            references,
            last,
        ) - count_below(references, first),
    decreases last - first,
{
    let words = segment_groups(references, first, last);
    if first == last {
        assert(words =~= Seq::empty());
        Seq::<Seq<KeyGroup>>::empty().lemma_flatten_one_element();
        assert(words.flatten() =~= Seq::empty());
    } else {
        let before = segment_groups(references, first, last - 1);
        let refs = word_references(references, last - 1);
        lemma_segment_size(references, first, last - 1);
        assert(words =~= before.push(word_groups(refs)));
        before.lemma_flatten_push(word_groups(refs));
        lemma_flat_constraints_add(before.flatten(), word_groups(refs));
        lemma_word_groups_size(refs);
        lemma_first_codes(refs);
        lemma_count_below_step(references, last - 1);
    }
}

/// Whether every reference of a list is to a word of the value vector.
pub open spec fn words_below(references: Seq<Reference>, n_words: int) -> bool {
    forall|i: int| 0 <= i < references.len() ==> 0 <= (#[trigger] references[i]).word < n_words
}

proof fn lemma_position_words(
    cs: ConstraintSystemModel,
    operation: Operation,
    operand_index: int,
    constraints: Seq<Seq<Seq<Term>>>,
    n: int,
)
    requires
        0 <= n <= constraints.len(),
        0 <= operand_index,
        forall|i: int|
            0 <= i < constraints.len() ==> operand_index < (#[trigger] constraints[i]).len(),
        cs.constraints_valid(constraints),
    ensures
        words_below(
            position_references(cs, operation, operand_index, constraints, n),
            cs.value_vec_len(),
        ),
    decreases n,
{
    if n > 0 {
        lemma_position_words(cs, operation, operand_index, constraints, n - 1);
        let before = position_references(cs, operation, operand_index, constraints, n - 1);
        let after = position_references(cs, operation, operand_index, constraints, n);
        assert(operand_index < constraints[n - 1].len());
        assert forall|i: int| 0 <= i < after.len() implies 0 <= (#[trigger] after[i]).word
            < cs.value_vec_len() by {
            if i < before.len() {
                assert(after[i] == before[i]);
            } else {
                let term = constraints[n - 1][operand_index][i - before.len()];
                assert(cs.term_valid(constraints[n - 1][operand_index][i - before.len()]));
                assert(after[i] == term_reference(cs, operation, operand_index, n - 1, term));
            }
        }
    }
}

proof fn lemma_operation_words(
    cs: ConstraintSystemModel,
    operation: Operation,
    constraints: Seq<Seq<Seq<Term>>>,
    n: int,
)
    requires
        forall|i: int| 0 <= i < constraints.len() ==> n <= (#[trigger] constraints[i]).len(),
        cs.constraints_valid(constraints),
    ensures
        words_below(operation_references(cs, operation, constraints, n), cs.value_vec_len()),
    decreases n,
{
    if n > 0 {
        lemma_operation_words(cs, operation, constraints, n - 1);
        assert forall|i: int| 0 <= i < constraints.len() implies n - 1 < (
        #[trigger] constraints[i]).len() by {}
        lemma_position_words(cs, operation, n - 1, constraints, constraints.len() as int);
    }
}

/// Every reference of a valid system is to a word of the value vector.
pub proof fn lemma_reference_words(cs: ConstraintSystem)
    requires
        cs.deep_view().valid(),
    ensures
        words_below(references(cs.deep_view()), cs.deep_view().value_vec_len()),
{
    let csm = cs.deep_view();
    lemma_operation_words(csm, Operation::Zero, csm.zero_constraints, 1);
    lemma_operation_words(csm, Operation::BitwiseAnd, csm.and_constraints, 3);
    lemma_operation_words(csm, Operation::IntegerMul, csm.imul_constraints, 4);
    lemma_operation_words(csm, Operation::BinMul, csm.bmul_constraints, 6);
}

} // verus!
