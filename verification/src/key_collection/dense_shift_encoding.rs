//! A dense numbering of the shift sequences that a segment uses.

use vstd::prelude::*;

use crate::constraint_system::{
    lemma_seq_code_injective, seq_code, seq_code_model, seq_wf, Shift, SHIFT_SEQ_COUNT,
};

verus! {

/// The shift sequences seen so far, each at its code.
pub(crate) struct SeqTable {
    entries: Vec<Option<[Shift; 2]>>,
}

impl SeqTable {
    /// Every entry holds a sequence with the entry's own code.
    pub(crate) closed spec fn wf(&self) -> bool {
        &&& self.entries@.len() == SHIFT_SEQ_COUNT
        &&& forall|code: int|
            #![trigger self.entries@[code]]
            0 <= code < SHIFT_SEQ_COUNT ==> match self.entries@[code] {
                Some(shift_seq) => seq_wf(shift_seq) && seq_code_model(shift_seq) == code,
                None => true,
            }
    }

    /// Whether a sequence with this code was seen.
    pub(crate) closed spec fn noted(&self, code: int) -> bool {
        0 <= code < SHIFT_SEQ_COUNT && self.entries@[code] is Some
    }

    pub(crate) fn new() -> (table: Self)
        ensures
            table.wf(),
            forall|code: int| !table.noted(code),
    {
        let mut entries: Vec<Option<[Shift; 2]>> = Vec::with_capacity(SHIFT_SEQ_COUNT);
        let mut i: usize = 0;
        while i < SHIFT_SEQ_COUNT
            invariant
                i <= SHIFT_SEQ_COUNT,
                entries@.len() == i,
                forall|code: int| 0 <= code < i ==> (#[trigger] entries@[code]) is None,
            decreases SHIFT_SEQ_COUNT - i,
        {
            entries.push(None);
            i += 1;
        }
        SeqTable { entries }
    }

    /// Records a sequence.
    pub(crate) fn note(&mut self, shift_seq: [Shift; 2])
        requires
            old(self).wf(),
            seq_wf(shift_seq),
        ensures
            final(self).wf(),
            forall|code: int| #[trigger]
                final(self).noted(code) <==> old(self).noted(code) || code == seq_code_model(shift_seq),
    {
        let code: usize = seq_code(shift_seq) as usize;
        if self.entries[code].is_none() {
            self.entries.set(code, Some(shift_seq));
        }
    }

    /// The sequence with this code, where one was seen.
    pub(crate) fn get(&self, code: u32) -> (shift_seq: Option<[Shift; 2]>)
        requires
            self.wf(),
            code < SHIFT_SEQ_COUNT,
        ensures
            shift_seq is Some <==> self.noted(code as int),
            shift_seq matches Some(s) ==> seq_wf(s) && seq_code_model(s) == code,
    {
        self.entries[code as usize]
    }
}

/// The shift sequences in use, in the order of their codes. A sequence's place is its dense index.
#[derive(Debug, PartialEq, Eq)]
pub struct DenseShiftEncoding {
    seqs: Vec<[Shift; 2]>,
}

impl Clone for DenseShiftEncoding {
    fn clone(&self) -> (encoding: Self)
        ensures
            encoding.seqs() == self.seqs(),
    {
        let mut seqs: Vec<[Shift; 2]> = Vec::with_capacity(self.seqs.len());
        let mut i: usize = 0;
        while i < self.seqs.len()
            invariant
                i == seqs@.len() <= self.seqs@.len(),
                forall|j: int| 0 <= j < i ==> #[trigger] seqs@[j] == self.seqs@[j],
            decreases self.seqs@.len() - i,
        {
            seqs.push(self.seqs[i]);
            i += 1;
        }
        assert(seqs@ =~= self.seqs@);
        DenseShiftEncoding { seqs }
    }
}

/// The code of a sequence given as its inner and its outer shift.
pub open spec fn pair_code(pair: (Shift, Shift)) -> int {
    pair.1.index_model() * 512 + pair.0.index_model()
}

/// Whether sequences are in range and in the order of their codes, without repetitions.
pub open spec fn pairs_ascend(pairs: Seq<(Shift, Shift)>) -> bool {
    &&& forall|i: int|
        0 <= i < pairs.len() ==> (#[trigger] pairs[i]).0.wf() && pairs[i].1.wf()
    &&& forall|i: int, j: int|
        0 <= i < j < pairs.len() ==> pair_code(#[trigger] pairs[i]) < pair_code(
            #[trigger] pairs[j],
        )
}

impl DeepView for DenseShiftEncoding {
    type V = Seq<(Shift, Shift)>;

    /// The inner and the outer shift of each sequence.
    open spec fn deep_view(&self) -> Seq<(Shift, Shift)> {
        self.seqs().map_values(|s: [Shift; 2]| (s[0], s[1]))
    }
}

impl DenseShiftEncoding {
    /// The sequences, in order.
    pub closed spec fn seqs(&self) -> Seq<[Shift; 2]> {
        self.seqs@
    }

    /// The sequences are in range, and their codes ascend.
    pub open spec fn wf(&self) -> bool {
        &&& forall|i: int| 0 <= i < self.seqs().len() ==> seq_wf(#[trigger] self.seqs()[i])
        &&& forall|i: int, j: int|
            0 <= i < j < self.seqs().len() ==> seq_code_model(#[trigger] self.seqs()[i])
                < seq_code_model(#[trigger] self.seqs()[j])
    }

    /// Numbers the given sequences, in any order and with any repetitions.
    pub fn new(shift_seqs: &Vec<[Shift; 2]>) -> (encoding: Self)
        requires
            forall|i: int| 0 <= i < shift_seqs@.len() ==> seq_wf(#[trigger] shift_seqs@[i]),
        ensures
            encoding.wf(),
            forall|s: [Shift; 2]| #[trigger]
                encoding.seqs().contains(s) <==> shift_seqs@.contains(s),
            encoding.seqs().len() <= SHIFT_SEQ_COUNT,
    {
        let mut table = SeqTable::new();
        let mut i: usize = 0;
        while i < shift_seqs.len()
            invariant
                i <= shift_seqs@.len(),
                forall|i: int| 0 <= i < shift_seqs@.len() ==> seq_wf(#[trigger] shift_seqs@[i]),
                table.wf(),
                forall|code: int| #[trigger]
                    table.noted(code) <==> exists|k: int|
                        0 <= k < i && seq_code_model(#[trigger] shift_seqs@[k]) == code,
            decreases shift_seqs@.len() - i,
        {
            table.note(shift_seqs[i]);
            assert forall|code: int| #[trigger] table.noted(code) implies exists|k: int|
                0 <= k < i + 1 && seq_code_model(#[trigger] shift_seqs@[k]) == code by {
                if code == seq_code_model(shift_seqs@[i as int]) {
                }
            }
            i += 1;
        }
        let mut seqs: Vec<[Shift; 2]> = Vec::new();
        let mut code: u32 = 0;
        while code < SHIFT_SEQ_COUNT as u32
            invariant
                code <= SHIFT_SEQ_COUNT,
                table.wf(),
                seqs@.len() <= code,
                forall|i: int|
                    0 <= i < seqs@.len() ==> seq_wf(#[trigger] seqs@[i]) && seq_code_model(seqs@[i])
                        < code && table.noted(seq_code_model(seqs@[i])),
                forall|i: int, j: int|
                    0 <= i < j < seqs@.len() ==> seq_code_model(#[trigger] seqs@[i])
                        < seq_code_model(#[trigger] seqs@[j]),
                forall|c: int|
                    0 <= c < code && #[trigger] table.noted(c) ==> exists|i: int|
                        0 <= i < seqs@.len() && seq_code_model(#[trigger] seqs@[i]) == c,
            decreases SHIFT_SEQ_COUNT - code,
        {
            let ghost before = seqs@;
            match table.get(code) {
                Some(shift_seq) => {
                    seqs.push(shift_seq);
                    assert(seqs@[before.len() as int] == shift_seq);
                },
                None => {},
            }
            assert forall|c: int| 0 <= c < code + 1 && #[trigger] table.noted(c) implies exists|i: int|
                0 <= i < seqs@.len() && seq_code_model(#[trigger] seqs@[i]) == c by {
                if c < code {
                    let i = choose|i: int|
                        0 <= i < before.len() && seq_code_model(#[trigger] before[i]) == c;
                    assert(seqs@[i] == before[i]);
                }
            }
            code += 1;
        }
        let encoding = DenseShiftEncoding { seqs };
        assert forall|s: [Shift; 2]| #[trigger] encoding.seqs().contains(s) implies shift_seqs@.contains(
            s,
        ) by {
            let i = choose|i: int| 0 <= i < seqs@.len() && seqs@[i] == s;
            assert(table.noted(seq_code_model(seqs@[i])));
            let k = choose|k: int|
                0 <= k < shift_seqs@.len() && seq_code_model(#[trigger] shift_seqs@[k])
                    == seq_code_model(s);
            lemma_seq_code_injective(shift_seqs@[k], s);
        }
        assert forall|s: [Shift; 2]| #[trigger] shift_seqs@.contains(s) implies encoding.seqs().contains(
            s,
        ) by {
            let k = choose|k: int| 0 <= k < shift_seqs@.len() && shift_seqs@[k] == s;
            assert(seq_wf(shift_seqs@[k]));
            let c = seq_code_model(shift_seqs@[k]);
            assert(table.noted(c));
            let i = choose|i: int| 0 <= i < seqs@.len() && seq_code_model(#[trigger] seqs@[i]) == c;
            lemma_seq_code_injective(seqs@[i], s);
        }
        encoding
    }

    /// Takes sequences that are in order already, or nothing where they are not.
    pub fn from_ascending(pairs: Vec<(Shift, Shift)>) -> (encoding: Option<Self>)
        ensures
            encoding is Some <==> pairs_ascend(pairs@),
            encoding matches Some(e) ==> e.wf() && e.deep_view() == pairs@,
    {
        let mut seqs: Vec<[Shift; 2]> = Vec::new();
        let mut i: usize = 0;
        while i < pairs.len()
            invariant
                i <= pairs@.len(),
                seqs@.len() == i,
                forall|k: int|
                    0 <= k < i ==> (#[trigger] seqs@[k])[0] == pairs@[k].0 && seqs@[k][1]
                        == pairs@[k].1,
                forall|k: int| 0 <= k < i ==> seq_wf(#[trigger] seqs@[k]),
                forall|k: int, l: int|
                    0 <= k < l < i ==> seq_code_model(#[trigger] seqs@[k]) < seq_code_model(
                        #[trigger] seqs@[l],
                    ),
            decreases pairs@.len() - i,
        {
            let shift_seq = [pairs[i].0, pairs[i].1];
            if !shift_seq[0].is_valid() || !shift_seq[1].is_valid() {
                assert(!pairs_ascend(pairs@)) by {
                    let pair = pairs@[i as int];
                    assert(!(pair.0.wf() && pair.1.wf()));
                }
                return None;
            }
            if i > 0 && seq_code(seqs[i - 1]) >= seq_code(shift_seq) {
                assert(!pairs_ascend(pairs@)) by {
                    assert(pair_code(pairs@[i - 1]) == seq_code_model(seqs@[i - 1]));
                    assert(pair_code(pairs@[i as int]) == seq_code_model(shift_seq));
                }
                return None;
            }
            seqs.push(shift_seq);
            i += 1;
        }
        let encoding = DenseShiftEncoding { seqs };
        assert(encoding.deep_view() =~= pairs@);
        assert forall|k: int| 0 <= k < pairs@.len() implies (#[trigger] pairs@[k]).0.wf()
            && pairs@[k].1.wf() by {
            assert(seq_wf(seqs@[k]));
        }
        assert forall|k: int, l: int| 0 <= k < l < pairs@.len() implies pair_code(
            #[trigger] pairs@[k],
        ) < pair_code(#[trigger] pairs@[l]) by {
            assert(seq_code_model(seqs@[k]) < seq_code_model(seqs@[l]));
        }
        Some(encoding)
    }

    /// The sequences, in order.
    pub fn iter(&self) -> (seqs: &Vec<[Shift; 2]>)
        ensures
            seqs@ == self.seqs(),
    {
        &self.seqs
    }

    /// The number of sequences.
    pub fn len(&self) -> (len: usize)
        ensures
            len == self.seqs().len(),
    {
        self.seqs.len()
    }

    /// The place of a sequence that is in use.
    pub fn dense_idx(&self, shift_seq: [Shift; 2]) -> (idx: u32)
        requires
            self.wf(),
            self.seqs().len() <= SHIFT_SEQ_COUNT,
            self.seqs().contains(shift_seq),
        ensures
            idx < self.seqs().len(),
            self.seqs()[idx as int] == shift_seq,
    {
        let ghost at = choose|at: int| 0 <= at < self.seqs@.len() && self.seqs@[at] == shift_seq;
        assert(seq_wf(self.seqs()[at]));
        let code: u32 = seq_code(shift_seq);
        let mut low: usize = 0;
        let mut high: usize = self.seqs.len();
        while low + 1 < high
            invariant
                self.wf(),
                0 <= low <= at < high <= self.seqs@.len() <= SHIFT_SEQ_COUNT,
                self.seqs@[at] == shift_seq,
                code == seq_code_model(shift_seq),
            decreases high - low,
        {
            let middle: usize = low + (high - low) / 2;
            assert(seq_wf(self.seqs()[middle as int]));
            assert(self.seqs()[at] == shift_seq);
            if seq_code(self.seqs[middle]) <= code {
                low = middle;
            } else {
                high = middle;
            }
        }
        low as u32
    }
}

} // verus!
