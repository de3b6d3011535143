//! Keeping the best BC7 partition candidates: a list of (partition, error)
//! pairs ordered by error, of bounded length, into which each partition's
//! estimated error is inserted as it is computed.

use vstd::prelude::*;

verus! {

/// Where a candidate with error `err` goes among the first `num` entries:
/// before the first entry with a larger error, else after them all.
pub open spec fn insert_position(list: Seq<(usize, u64)>, num: int, err: u64) -> int
    decreases num,
{
    if num <= 0 {
        0
    } else if exists|i: int| 0 <= i < num - 1 && err < #[trigger] list[i].1 {
        insert_position(list, num - 1, err)
    } else if err < list[num - 1].1 {
        num - 1
    } else {
        num
    }
}

/// `list` after inserting `item` at `pos` in a list of at most `max`
/// entries of which `num` are filled: the entries from `pos` on move one
/// place back, and one that would move to place `max` falls off.
pub open spec fn inserted(list: Seq<(usize, u64)>, num: int, max: int, pos: int, item: (usize, u64)) -> Seq<(usize, u64)> {
    let last = if max - 1 < num {
        max - 1
    } else {
        num
    };
    Seq::new(
        list.len(),
        |i: int|
            if i < pos {
                list[i]
            } else if i == pos {
                item
            } else if i <= last {
                list[i - 1]
            } else {
                list[i]
            },
    )
}

/// The first `num` entries of `list` are ordered by error.
pub open spec fn sorted_by_error(list: Seq<(usize, u64)>, num: int) -> bool {
    forall|i: int, j: int| 0 <= i <= j < num ==> list[i].1 <= list[j].1
}

/// Inserts the candidate (`partition`, `err`) into `out`, whose first
/// `num_solutions` entries are filled and which keeps at most
/// `max_solutions`. Returns the new number of entries and where the
/// candidate went (`num_solutions` or more when it was not kept).
pub fn insert_partition_solution(
    out: &mut [(usize, u64)],
    num_solutions: usize,
    max_solutions: usize,
    partition: usize,
    err: u64,
) -> (r: (usize, usize))
    requires
        num_solutions <= max_solutions <= old(out)@.len(),
    ensures
        r.1 == insert_position(old(out)@, num_solutions as int, err),
        r.1 < max_solutions ==> {
            &&& final(out)@ == inserted(
                old(out)@,
                num_solutions as int,
                max_solutions as int,
                r.1 as int,
                (partition, err),
            )
            &&& r.0 == (if num_solutions < max_solutions {
                num_solutions + 1
            } else {
                num_solutions as int
            })
        },
        r.1 >= max_solutions ==> final(out)@ == old(out)@ && r.0 == num_solutions,
{
    let ghost list = out@;
    let mut i: usize = 0;
    while i < num_solutions && !(err < out[i].1)
        invariant
            i <= num_solutions,
            num_solutions <= out@.len(),
            out@ == list,
            forall|k: int| 0 <= k < i ==> !(err < #[trigger] list[k].1),
        decreases num_solutions - i,
    {
        i += 1;
    }
    let insert_pos = i;
    proof {
        lemma_insert_position(list, num_solutions as int, err, insert_pos as int);
    }
    if insert_pos < max_solutions {
        let last = if max_solutions - 1 < num_solutions {
            max_solutions - 1
        } else {
            num_solutions
        };
        let move_count = last - insert_pos;
        let mut j = move_count;
        while j > 0
            invariant
                j <= move_count,
                move_count == last - insert_pos,
                last < out@.len(),
                insert_pos <= last,
                out@.len() == list.len(),
                forall|k: int|
                    0 <= k < out@.len() ==> #[trigger] out@[k] == (if insert_pos + j < k <= last {
                        list[k - 1]
                    } else {
                        list[k]
                    }),
            decreases j,
        {
            out[insert_pos + j] = out[insert_pos + j - 1];
            j -= 1;
        }
        out[insert_pos] = (partition, err);
        assert(out@ =~= inserted(
            list,
            num_solutions as int,
            max_solutions as int,
            insert_pos as int,
            (partition, err),
        ));
        let n = if num_solutions < max_solutions {
            num_solutions + 1
        } else {
            num_solutions
        };
        (n, insert_pos)
    } else {
        (num_solutions, insert_pos)
    }
}

/// `pos` is the insertion position when it is `num` or the first of the
/// first `num` entries with a larger error.
proof fn lemma_insert_position(list: Seq<(usize, u64)>, num: int, err: u64, pos: int)
    requires
        0 <= pos <= num,
        forall|k: int| 0 <= k < pos ==> !(err < #[trigger] list[k].1),
        pos < num ==> err < list[pos].1,
    ensures
        insert_position(list, num, err) == pos,
    decreases num,
{
    if num > 0 {
        if pos < num - 1 {
            assert(err < list[pos].1);
            lemma_insert_position(list, num - 1, err, pos);
        } else if pos == num - 1 {
            assert(!exists|i: int| 0 <= i < num - 1 && err < #[trigger] list[i].1);
        } else {
            assert(!exists|i: int| 0 <= i < num - 1 && err < #[trigger] list[i].1);
            assert(!(err < list[num - 1].1));
        }
    }
}

/// Inserting a candidate keeps the kept entries ordered by error.
pub proof fn lemma_insert_keeps_order(
    list: Seq<(usize, u64)>,
    num: int,
    max: int,
    partition: usize,
    err: u64,
)
    requires
        0 <= num <= max <= list.len(),
        sorted_by_error(list, num),
        insert_position(list, num, err) < max,
    ensures
        sorted_by_error(
            inserted(list, num, max, insert_position(list, num, err), (partition, err)),
            if num < max {
                num + 1
            } else {
                num
            },
        ),
{
    let pos = insert_position(list, num, err);
    lemma_insert_position_facts(list, num, err);
    let out = inserted(list, num, max, pos, (partition, err));
    let n = if num < max {
        num + 1
    } else {
        num
    };
    assert forall|i: int, j: int| 0 <= i <= j < n implies out[i].1 <= out[j].1 by {
        if j < pos {
        } else if j == pos {
            if i < pos {
                assert(!(err < list[i].1));
            }
        } else {
            if i < pos {
                assert(list[i].1 <= list[j - 1].1);
            } else if i == pos {
                assert(err < list[pos].1);
                assert(list[pos].1 <= list[j - 1].1);
            } else {
            }
        }
    }
}

/// The insertion position lies in `0..=num`; the entries before it have no
/// larger error, and the entry at it (if any) has a larger one.
proof fn lemma_insert_position_facts(list: Seq<(usize, u64)>, num: int, err: u64)
    requires
        0 <= num,
    ensures
        0 <= insert_position(list, num, err) <= num,
        forall|k: int|
            0 <= k < insert_position(list, num, err) ==> !(err < #[trigger] list[k].1),
        insert_position(list, num, err) < num ==> err < list[insert_position(list, num, err)].1,
    decreases num,
{
    if num > 0 {
        lemma_insert_position_facts(list, num - 1, err);
        if exists|i: int| 0 <= i < num - 1 && err < #[trigger] list[i].1 {
            let w = choose|i: int| 0 <= i < num - 1 && err < #[trigger] list[i].1;
            assert(insert_position(list, num - 1, err) < num - 1) by {
                if insert_position(list, num - 1, err) == num - 1 {
                    assert(!(err < list[w].1));
                }
            }
        }
    }
}

} // verus!
