//! Sorting the decoded image files by their numbers, stably, as
//! `sort_by(sort_the_vector_right)` does.
use vstd::prelude::*;
use crate::frame_names::{frame_file_name_spec, frame_key, frame_sort_key, lemma_frame_key_of_file_name};

verus! {

/// `p` lists each of the indices `0..n` exactly once.
pub open spec fn is_index_permutation(p: Seq<usize>, n: nat) -> bool {
    &&& p.len() == n
    &&& forall|i: int| 0 <= i < p.len() ==> #[trigger] p[i] < n
    &&& forall|i: int, j: int| 0 <= i < j < p.len() ==> #[trigger] p[i] != #[trigger] p[j]
}

/// Taking the indices in the order of `p` lists the keys in increasing order,
/// and equal keys in the order of their indices: the order of a stable sort.
pub open spec fn stably_ordered(keys: Seq<u32>, p: Seq<usize>) -> bool {
    forall|i: int, j: int|
        0 <= i < j < p.len() ==> {
            ||| keys[#[trigger] p[i] as int] < keys[#[trigger] p[j] as int]
            ||| (keys[p[i] as int] == keys[p[j] as int] && p[i] < p[j])
        }
}

/// The sort keys of a list of file names.
pub open spec fn name_keys(names: Seq<String>) -> Seq<u32> {
    Seq::new(names.len(), |i: int| frame_key(names[i]@).unwrap())
}

/// Every name in the list has a sort key.
pub open spec fn all_named_frames(names: Seq<String>) -> bool {
    forall|i: int| 0 <= i < names.len() ==> (#[trigger] frame_key(names[i]@)) is Some
}

/// `res` is `names` stably sorted by frame number: the names taken in an
/// order that lists their numbers in increasing order, names of one number
/// in the order in which they came.
pub open spec fn sorted_by_frame_number(names: Seq<String>, res: Seq<String>) -> bool {
    exists|p: Seq<usize>|
        {
            &&& is_index_permutation(p, names.len())
            &&& stably_ordered(name_keys(names), p)
            &&& res.len() == names.len()
            &&& forall|k: int| 0 <= k < p.len() ==> #[trigger] res[k] == names[p[k] as int]
        }
}

/// The indices of `keys` in the order of a stable sort by key.
pub fn stable_order(keys: &Vec<u32>) -> (p: Vec<usize>)
    ensures
        is_index_permutation(p@, keys@.len()),
        stably_ordered(keys@, p@),
{
    let n = keys.len();
    let mut p: Vec<usize> = Vec::new();
    let mut idx: usize = 0;
    while idx < n
        invariant
            n == keys@.len(),
            idx <= n,
            is_index_permutation(p@, idx as nat),
            stably_ordered(keys@, p@),
        decreases n - idx,
    {
        let key = keys[idx];
        // the place of `idx`: after every index whose key is not greater
        let mut pos: usize = 0;
        while pos < p.len() && keys[p[pos]] <= key
            invariant
                n == keys@.len(),
                idx < n,
                pos <= p@.len(),
                is_index_permutation(p@, idx as nat),
                stably_ordered(keys@, p@),
                key == keys@[idx as int],
                forall|k: int| 0 <= k < pos ==> keys@[#[trigger] p@[k] as int] <= key,
            decreases p@.len() - pos,
        {
            pos = pos + 1;
        }
        let ghost old_p = p@;
        assert(forall|k: int| pos <= k < old_p.len() ==> keys@[#[trigger] old_p[k] as int] > key) by {
            assert forall|k: int| pos <= k < old_p.len() implies keys@[#[trigger] old_p[k] as int] > key by {
                if k > pos {
                    assert(keys@[old_p[pos as int] as int] <= keys@[old_p[k] as int]);
                }
            }
        }
        p.insert(pos, idx);
        assert(p@ =~= old_p.insert(pos as int, idx));
        assert forall|i: int, j: int| 0 <= i < j < p@.len() implies #[trigger] p@[i] != #[trigger] p@[j] by {
            if i < pos && j < pos {
                assert(p@[i] == old_p[i] && p@[j] == old_p[j]);
            } else if i < pos && j > pos {
                assert(p@[i] == old_p[i] && p@[j] == old_p[j - 1]);
            } else if i > pos {
                assert(p@[i] == old_p[i - 1] && p@[j] == old_p[j - 1]);
            }
        }
        assert forall|i: int| 0 <= i < p@.len() implies #[trigger] p@[i] < idx + 1 by {
            if i < pos {
                assert(p@[i] == old_p[i]);
            } else if i > pos {
                assert(p@[i] == old_p[i - 1]);
            }
        }
        assert forall|i: int, j: int| 0 <= i < j < p@.len() implies {
            ||| keys@[#[trigger] p@[i] as int] < keys@[#[trigger] p@[j] as int]
            ||| (keys@[p@[i] as int] == keys@[p@[j] as int] && p@[i] < p@[j])
        } by {
            if i < pos && j < pos {
                assert(p@[i] == old_p[i] && p@[j] == old_p[j]);
            } else if i < pos && j == pos {
                assert(p@[i] == old_p[i]);
                assert(keys@[old_p[i] as int] <= key);
                assert(old_p[i] < idx);
            } else if i < pos && j > pos {
                assert(p@[i] == old_p[i] && p@[j] == old_p[j - 1]);
            } else if i == pos {
                assert(p@[j] == old_p[j - 1]);
                assert(keys@[old_p[j - 1] as int] > key);
            } else {
                assert(p@[i] == old_p[i - 1] && p@[j] == old_p[j - 1]);
            }
        }
        idx = idx + 1;
    }
    p
}

/// The file names in the order of their numbers, names of one number in the
/// order in which they came: what `names.sort_by(sort_the_vector_right)`
/// leaves. A list of fewer than two names is never compared, and comes back
/// as it is.
pub fn sort_frame_files(names: &Vec<String>) -> (res: Vec<String>)
    requires
        names@.len() >= 2 ==> all_named_frames(names@),
    ensures
        sorted_by_frame_number(names@, res@),
{
    let n = names.len();
    if n < 2 {
        let mut res: Vec<String> = Vec::new();
        if n == 1 {
            res.push(names[0].clone());
        }
        let ghost p: Seq<usize> = if n == 1 { seq![0usize] } else { Seq::empty() };
        assert(is_index_permutation(p, names@.len()));
        assert(stably_ordered(name_keys(names@), p));
        assert(forall|k: int| 0 <= k < p.len() ==> #[trigger] res@[k] == names@[p[k] as int]);
        return res;
    }
    let mut keys: Vec<u32> = Vec::new();
    let mut i: usize = 0;
    while i < n
        invariant
            n == names@.len(),
            i <= n,
            all_named_frames(names@),
            keys@ =~= name_keys(names@).take(i as int),
        decreases n - i,
    {
        let k = frame_sort_key(names[i].as_str());
        assert(frame_key(names@[i as int]@) is Some);
        let kv = match k {
            Some(v) => v,
            None => 0,
        };
        keys.push(kv);
        i = i + 1;
    }
    assert(keys@ =~= name_keys(names@));
    let p = stable_order(&keys);
    let mut res: Vec<String> = Vec::new();
    let mut j: usize = 0;
    while j < n
        invariant
            n == names@.len(),
            is_index_permutation(p@, n as nat),
            j <= n,
            res@.len() == j,
            forall|k: int| 0 <= k < j ==> #[trigger] res@[k] == names@[p@[k] as int],
        decreases n - j,
    {
        let s = names[p[j]].clone();
        res.push(s);
        j = j + 1;
    }
    assert(res@.len() == names@.len());
    assert(forall|k: int| 0 <= k < p@.len() ==> #[trigger] res@[k] == names@[p@[k] as int]);
    res
}

/// Law: when the files are those written for frames of distinct numbers,
/// sorting them lists the frames in increasing order of their numbers.
pub proof fn lemma_sorted_files_in_number_order(names: Seq<String>, res: Seq<String>, nums: Seq<u32>)
    requires
        names.len() == nums.len(),
        forall|i: int| 0 <= i < names.len() ==> #[trigger] names[i]@ == frame_file_name_spec(nums[i]),
        forall|i: int, j: int| 0 <= i < j < nums.len() ==> #[trigger] nums[i] != #[trigger] nums[j],
        sorted_by_frame_number(names, res),
    ensures
        res.len() == names.len(),
        forall|i: int, j: int|
            0 <= i < j < res.len() ==> frame_key(#[trigger] res[i]@).unwrap() < frame_key(#[trigger] res[j]@).unwrap(),
{
    let p = choose|p: Seq<usize>|
        {
            &&& is_index_permutation(p, names.len())
            &&& stably_ordered(name_keys(names), p)
            &&& res.len() == names.len()
            &&& forall|k: int| 0 <= k < p.len() ==> #[trigger] res[k] == names[p[k] as int]
        };
    assert forall|i: int| 0 <= i < names.len() implies #[trigger] name_keys(names)[i] == nums[i] by {
        lemma_frame_key_of_file_name(nums[i]);
    }
    assert forall|i: int, j: int| 0 <= i < j < res.len() implies frame_key(#[trigger] res[i]@).unwrap() < frame_key(
        #[trigger] res[j]@,
    ).unwrap() by {
        let a = p[i] as int;
        let b = p[j] as int;
        assert(res[i] == names[a]);
        assert(res[j] == names[b]);
        assert(a != b);
        assert(name_keys(names)[a] == nums[a]);
        assert(name_keys(names)[b] == nums[b]);
        if a < b {
            assert(nums[a] != nums[b]);
        } else {
            assert(nums[b] != nums[a]);
        }
    }
}

} // verus!
