//! Splitting a reading into morae.
//!
//! A reading is a sequence of characters, `Seq<char>`. A mora is a non-empty
//! run of characters of the reading; the morae of a reading are a
//! `Seq<Seq<char>>` whose concatenation is the reading.

use vstd::prelude::*;

verus! {

/// The small kana, which attach to the character before them.
pub open spec fn is_small_kana(c: char) -> bool {
    c == 'ャ' || c == 'ュ' || c == 'ョ' || c == 'ァ' || c == 'ィ' || c == 'ゥ' || c == 'ェ'
        || c == 'ォ'
}

/// The morae of a reading.
///
/// The first character opens the first mora. Every later character joins the
/// mora before it if it is a small kana, and opens a new mora if it is not.
pub open spec fn moras_of(reading: Seq<char>) -> Seq<Seq<char>>
    decreases reading.len(),
{
    if reading.len() == 0 {
        Seq::empty()
    } else {
        let before = moras_of(reading.drop_last());
        let c = reading.last();
        if before.len() > 0 && is_small_kana(c) {
            before.drop_last().push(before.last().push(c))
        } else {
            before.push(seq![c])
        }
    }
}

/// A mora: one character, and after it nothing but small kana.
pub open spec fn is_mora(mora: Seq<char>) -> bool {
    mora.len() > 0 && forall|j: int| 0 < j < mora.len() ==> is_small_kana(#[trigger] mora[j])
}

/// The morae split the reading: put together in their order they are the
/// reading, each of them is a mora, and none but the first begins with a
/// small kana.
pub open spec fn is_segmentation(moras: Seq<Seq<char>>, reading: Seq<char>) -> bool {
    &&& moras.flatten() == reading
    &&& forall|i: int| 0 <= i < moras.len() ==> is_mora(#[trigger] moras[i])
    &&& forall|i: int| 0 < i < moras.len() ==> !is_small_kana((#[trigger] moras[i])[0])
}

/// Morae put together are those before the last put together, followed by
/// the last.
proof fn lemma_flatten_last(moras: Seq<Seq<char>>)
    requires
        moras.len() > 0,
    ensures
        moras.flatten() == moras.drop_last().flatten() + moras.last(),
{
    assert(moras =~= moras.drop_last().push(moras.last()));
    moras.drop_last().lemma_flatten_push(moras.last());
}

/// The morae of a reading split it. So a small kana never begins a mora,
/// unless it is the first character of the reading, and the morae put
/// together give the reading back.
pub proof fn lemma_moras_split(reading: Seq<char>)
    ensures
        is_segmentation(moras_of(reading), reading),
        moras_of(reading).flatten() == reading,
        forall|i: int|
            0 < i < moras_of(reading).len() ==> !is_small_kana((#[trigger] moras_of(reading)[i])[0]),
    decreases reading.len(),
{
    let moras = moras_of(reading);
    if reading.len() == 0 {
        assert(moras.flatten() =~= reading);
    } else {
        let before = moras_of(reading.drop_last());
        let c = reading.last();
        lemma_moras_split(reading.drop_last());
        assert(reading =~= reading.drop_last().push(c));
        if before.len() > 0 && is_small_kana(c) {
            let grown = before.last().push(c);
            lemma_flatten_last(before);
            before.drop_last().lemma_flatten_push(grown);
            assert(moras.flatten() =~= reading);
            assert(is_mora(grown));
            assert forall|i: int| 0 <= i < moras.len() implies is_mora(#[trigger] moras[i]) by {
                if i < moras.len() - 1 {
                    assert(moras[i] == before[i]);
                }
            }
            assert forall|i: int| 0 < i < moras.len() implies !is_small_kana(
                (#[trigger] moras[i])[0],
            ) by {
                assert(moras[i][0] == before[i][0]);
            }
        } else {
            before.lemma_flatten_push(seq![c]);
            assert(moras.flatten() =~= reading);
            assert(is_mora(seq![c]));
            assert forall|i: int| 0 <= i < moras.len() implies is_mora(#[trigger] moras[i]) by {
                if i < moras.len() - 1 {
                    assert(moras[i] == before[i]);
                }
            }
            assert forall|i: int| 0 < i < moras.len() implies !is_small_kana(
                (#[trigger] moras[i])[0],
            ) by {
                if i < moras.len() - 1 {
                    assert(moras[i] == before[i]);
                }
            }
        }
    }
}

/// A reading is split in one way only: whatever splits it is its morae.
pub proof fn lemma_segmentation_unique(moras: Seq<Seq<char>>, reading: Seq<char>)
    requires
        is_segmentation(moras, reading),
    ensures
        moras == moras_of(reading),
    decreases reading.len(),
{
    if moras.len() == 0 {
        assert(moras =~= moras_of(reading));
    } else {
        let last = moras.last();
        lemma_flatten_last(moras);
        assert(is_mora(last));
        let c = reading.last();
        assert(c == last.last());
        let rest = reading.drop_last();
        let before = moras_of(rest);
        if last.len() == 1 {
            let shorter = moras.drop_last();
            assert(shorter.flatten() =~= rest);
            assert forall|i: int| 0 <= i < shorter.len() implies is_mora(#[trigger] shorter[i]) by {
                assert(shorter[i] == moras[i]);
            }
            assert forall|i: int| 0 < i < shorter.len() implies !is_small_kana(
                (#[trigger] shorter[i])[0],
            ) by {
                assert(shorter[i] == moras[i]);
            }
            lemma_segmentation_unique(shorter, rest);
            assert(last =~= seq![c]);
            if before.len() > 0 {
                assert(!is_small_kana(moras[moras.len() - 1][0]));
            }
            assert(moras =~= before.push(seq![c]));
        } else {
            let shorter = moras.drop_last().push(last.drop_last());
            moras.drop_last().lemma_flatten_push(last.drop_last());
            assert(shorter.flatten() =~= rest);
            assert(is_small_kana(last[last.len() - 1]));
            assert forall|i: int| 0 <= i < shorter.len() implies is_mora(#[trigger] shorter[i]) by {
                if i < shorter.len() - 1 {
                    assert(shorter[i] == moras[i]);
                } else {
                    assert forall|j: int| 0 < j < shorter[i].len() implies is_small_kana(
                        #[trigger] shorter[i][j],
                    ) by {
                        assert(shorter[i][j] == last[j]);
                    }
                }
            }
            assert forall|i: int| 0 < i < shorter.len() implies !is_small_kana(
                (#[trigger] shorter[i])[0],
            ) by {
                assert(shorter[i][0] == moras[i][0]);
            }
            lemma_segmentation_unique(shorter, rest);
            assert(before.drop_last() =~= moras.drop_last());
            assert(before.last().push(c) =~= last);
            assert(moras =~= before.drop_last().push(before.last().push(c)));
        }
    }
}

/// A reading has at most as many morae as characters, and at least one mora
/// unless it is empty.
pub proof fn lemma_moras_len(reading: Seq<char>)
    ensures
        moras_of(reading).len() <= reading.len(),
        reading.len() > 0 ==> moras_of(reading).len() > 0,
    decreases reading.len(),
{
    if reading.len() > 0 {
        lemma_moras_len(reading.drop_last());
    }
}

/// Tells whether `c` is one of the small kana.
pub fn small_kana(c: char) -> (b: bool)
    ensures
        b == is_small_kana(c),
{
    c == 'ャ' || c == 'ュ' || c == 'ョ' || c == 'ァ' || c == 'ィ' || c == 'ゥ' || c == 'ェ'
        || c == 'ォ'
}

/// `String::push`, which appends one character to the end of the string.
pub assume_specification[ String::push ](s: &mut String, ch: char)
    ensures
        final(s)@ == old(s)@.push(ch),
;

/// The morae finished so far, followed by the mora under construction if it
/// holds anything.
spec fn with_pending(done: Seq<Seq<char>>, pending: Seq<char>) -> Seq<Seq<char>> {
    if pending.len() == 0 {
        done
    } else {
        done.push(pending)
    }
}

/// Splits a reading into its morae.
pub fn into_moras(pronounciation: &str) -> (moras: Vec<String>)
    ensures
        moras.deep_view() == moras_of(pronounciation@),
        moras.deep_view().flatten() == pronounciation@,
        is_segmentation(moras.deep_view(), pronounciation@),
{
    let mut moras: Vec<String> = Vec::new();
    let mut curr = String::new();
    let ghost reading = pronounciation@;

    for c in it: pronounciation.chars()
        invariant
            it.seq() == reading,
            with_pending(moras.deep_view(), curr@) == moras_of(reading.take(it.index() as int)),
            curr@.len() == 0 ==> it.index() == 0,
    {
        let ghost i = it.index() as int;
        let ghost done = moras.deep_view();
        let ghost pending = curr@;
        assert(reading.take(i + 1).drop_last() =~= reading.take(i));
        assert(reading.take(i + 1).last() == c);
        if !small_kana(c) && !curr.as_str().is_empty() {
            moras.push(curr);
            curr = String::new();
            assert(moras.deep_view() =~= done.push(pending));
        }
        curr.push(c);
        proof {
            let before = moras_of(reading.take(i));
            assert(before == with_pending(done, pending));
            if pending.len() == 0 {
                assert(i == 0);
                assert(reading.take(0) =~= Seq::<char>::empty());
                assert(before.len() == 0);
                assert(curr@ =~= seq![c]);
            } else if is_small_kana(c) {
                assert(before.drop_last() =~= done);
                assert(before.last() == pending);
            } else {
                assert(curr@ =~= seq![c]);
            }
        }
    }

    if !curr.as_str().is_empty() {
        let ghost done = moras.deep_view();
        moras.push(curr);
        assert(moras.deep_view() =~= done.push(curr@));
    }
    proof {
        assert(reading.take(reading.len() as int) =~= reading);
        lemma_moras_split(reading);
    }
    moras
}

} // verus!
