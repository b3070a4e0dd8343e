//! Taking the para of an instance apart into the part that identifies it
//! and the rest.

use vstd::prelude::*;
use vstd::string::*;
use crate::error::{ErrorText, NatureError};
use crate::settings::SEPARATOR_INS_PARA;
use crate::text::{join, join_texts, pieces, split, texts_of};

verus! {

/// The texts that the string slices of `v` hold, in order.
pub open spec fn slices_of(v: Seq<&str>) -> Seq<Seq<char>> {
    Seq::new(v.len(), |i: int| v[i]@)
}

/// The keys at the positions `idx`, in the order of `idx`.
pub open spec fn picked(keys: Seq<Seq<char>>, idx: Seq<u8>) -> Seq<Seq<char>> {
    Seq::new(idx.len(), |i: int| keys[idx[i] as int])
}

/// Whether the position `i` is one of `idx`. Positions are compared by
/// their lowest eight bits.
pub open spec fn is_picked(idx: Seq<u8>, i: int) -> bool {
    idx.contains((i % 256) as u8)
}

/// The first `n` keys without those whose position is one of `idx`, in
/// their own order.
pub open spec fn left_over(keys: Seq<Seq<char>>, idx: Seq<u8>, n: int) -> Seq<Seq<char>>
    decreases n,
{
    if n <= 0 {
        Seq::empty()
    } else if is_picked(idx, n - 1) {
        left_over(keys, idx, n - 1)
    } else {
        left_over(keys, idx, n - 1).push(keys[n - 1])
    }
}

/// Whether every position of `idx` is one of `keys`.
pub open spec fn in_bounds(keys: Seq<Seq<char>>, idx: Seq<u8>) -> bool {
    forall|i: int| 0 <= i < idx.len() ==> (#[trigger] idx[i] as int) < keys.len()
}

/// The message for a position that is not one of the keys.
pub open spec fn outbound_message() -> Seq<char> {
    "outbound index"@
}

fn has_position(idx: &Vec<u8>, b: u8) -> (r: bool)
    ensures
        r == idx@.contains(b),
{
    let mut i: usize = 0;
    while i < idx.len()
        invariant
            i <= idx.len(),
            forall|j: int| 0 <= j < i ==> idx@[j] != b,
        decreases idx.len() - i,
    {
        if idx[i] == b {
            return true;
        }
        i += 1;
    }
    false
}

fn key_and_para(keys: &Vec<String>, k_index: &Vec<u8>, sep: &str) -> (r: Result<
    (String, String),
    NatureError,
>)
    ensures
        match r {
            Ok(p) => in_bounds(texts_of(keys@), k_index@) && p.0@ == join_texts(
                picked(texts_of(keys@), k_index@),
                sep@,
            ) && p.1@ == join_texts(left_over(texts_of(keys@), k_index@, keys.len() as int), sep@),
            Err(e) => !in_bounds(texts_of(keys@), k_index@) && e@ == ErrorText::VerifyError(
                outbound_message(),
            ),
        },
{
    let ghost names = texts_of(keys@);
    let mut p: Vec<String> = Vec::new();
    let mut i: usize = 0;
    while i < k_index.len()
        invariant
            i <= k_index.len(),
            names == texts_of(keys@),
            forall|j: int| 0 <= j < i ==> (#[trigger] k_index@[j] as int) < keys.len(),
            texts_of(p@) == picked(names, k_index@.take(i as int)),
        decreases k_index.len() - i,
    {
        let index = k_index[i] as usize;
        if index >= keys.len() {
            return Err(NatureError::VerifyError("outbound index".to_owned()));
        }
        let ghost before = p@;
        p.push(keys[index].clone());
        assert(texts_of(p@) =~= texts_of(before).push(keys@[index as int]@));
        assert(picked(names, k_index@.take(i + 1)) =~= picked(names, k_index@.take(i as int)).push(
            names[index as int],
        ));
        i += 1;
    }
    assert(k_index@.take(i as int) =~= k_index@);
    let para = join(&p, sep);

    let mut k: Vec<String> = Vec::new();
    let mut n: usize = 0;
    assert(texts_of(k@) =~= left_over(names, k_index@, 0));
    while n < keys.len()
        invariant
            n <= keys.len(),
            names == texts_of(keys@),
            texts_of(k@) == left_over(names, k_index@, n as int),
        decreases keys.len() - n,
    {
        if !has_position(k_index, (n % 256) as u8) {
            let ghost before = k@;
            k.push(keys[n].clone());
            assert(texts_of(k@) =~= texts_of(before).push(keys@[n as int]@));
        }
        n += 1;
    }
    let key = join(&k, sep);
    Ok((para, key))
}

/// Takes `para` apart at every `/` and picks the parts at the positions
/// `part`. Gives the picked parts, joined by `/` in the order of `part`,
/// and the parts that are left, joined by `/` in their own order. Without
/// positions both are empty.
pub fn get_para_and_key_from_para(para: &str, part: &Vec<u8>) -> (r: Result<
    (String, String),
    NatureError,
>)
    ensures
        match r {
            Ok(p) => if part@.len() == 0 {
                p.0@.len() == 0 && p.1@.len() == 0
            } else {
                let keys = pieces(para@, SEPARATOR_INS_PARA);
                in_bounds(keys, part@) && p.0@ == join_texts(
                    picked(keys, part@),
                    seq![SEPARATOR_INS_PARA],
                ) && p.1@ == join_texts(
                    left_over(keys, part@, keys.len() as int),
                    seq![SEPARATOR_INS_PARA],
                )
            },
            Err(e) => part@.len() > 0 && !in_bounds(pieces(para@, SEPARATOR_INS_PARA), part@)
                && e@ == ErrorText::VerifyError(outbound_message()),
        },
{
    if part.len() == 0 {
        return Ok((String::new(), String::new()));
    }
    proof {
        reveal_strlit("/");
        assert("/"@ =~= seq![SEPARATOR_INS_PARA]);
    }
    let keys = split(para, SEPARATOR_INS_PARA);
    key_and_para(&keys, part, "/")
}

/// Picks the keys at the positions `k_index`. Gives the picked keys,
/// joined by `sep` in the order of `k_index`, and the keys that are left,
/// joined by `sep` in their own order.
pub fn make_key_and_para(keys: &Vec<&str>, k_index: &Vec<u8>, sep: &str) -> (r: Result<
    (String, String),
    NatureError,
>)
    requires
        k_index@.len() > 0,
    ensures
        match r {
            Ok(p) => in_bounds(slices_of(keys@), k_index@) && p.0@ == join_texts(
                picked(slices_of(keys@), k_index@),
                sep@,
            ) && p.1@ == join_texts(left_over(slices_of(keys@), k_index@, keys.len() as int), sep@),
            Err(e) => !in_bounds(slices_of(keys@), k_index@) && e@ == ErrorText::VerifyError(
                outbound_message(),
            ),
        },
{
    let mut owned: Vec<String> = Vec::new();
    let mut i: usize = 0;
    while i < keys.len()
        invariant
            i <= keys.len(),
            texts_of(owned@) == slices_of(keys@).take(i as int),
        decreases keys.len() - i,
    {
        let ghost before = owned@;
        owned.push(keys[i].to_owned());
        assert(texts_of(owned@) =~= texts_of(before).push(keys@[i as int]@));
        assert(slices_of(keys@).take(i + 1) =~= slices_of(keys@).take(i as int).push(
            keys@[i as int]@,
        ));
        i += 1;
    }
    assert(slices_of(keys@).take(i as int) =~= slices_of(keys@));
    key_and_para(&owned, k_index, sep)
}

} // verus!
