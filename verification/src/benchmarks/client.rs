//! Statistics of the benchmark client.
use vstd::prelude::*;

verus! {

/// Whether a file name has the extension `png`: it ends in ".png" and
/// something comes before that dot.
pub open spec fn has_png_extension(name: Seq<char>) -> bool {
    name.len() > 4 && name.subrange(name.len() - 4, name.len() as int) == ".png"@
}

/// Positions, in increasing order, of the names with the extension `png`.
pub open spec fn png_positions(names: Seq<String>) -> Seq<usize>
    decreases names.len(),
{
    if names.len() == 0 {
        Seq::empty()
    } else {
        let rest = png_positions(names.drop_last());
        if has_png_extension(names.last()@) {
            rest.push((names.len() - 1) as usize)
        } else {
            rest
        }
    }
}

/// Each listed position holds a `png` name, and the positions increase.
proof fn lemma_png_positions(names: Seq<String>)
    requires
        names.len() <= usize::MAX,
    ensures
        forall|k: int|
            0 <= k < png_positions(names).len() ==> (#[trigger] png_positions(names)[k] as int)
                < names.len() && has_png_extension(names[png_positions(names)[k] as int]@),
        forall|j: int, k: int|
            0 <= j < k < png_positions(names).len() ==> png_positions(names)[j]
                < png_positions(names)[k],
    decreases names.len(),
{
    if names.len() > 0 {
        let prefix = names.drop_last();
        let rest = png_positions(prefix);
        lemma_png_positions(prefix);
        assert forall|k: int| 0 <= k < rest.len() implies (rest[k] as int) < names.len()
            && has_png_extension(names[rest[k] as int]@) by {
            assert(names[rest[k] as int] == prefix[rest[k] as int]);
        }
        if has_png_extension(names.last()@) {
            let all = rest.push((names.len() - 1) as usize);
            assert(png_positions(names) == all);
            assert forall|k: int| 0 <= k < all.len() implies (#[trigger] all[k] as int) < names.len()
                && has_png_extension(names[all[k] as int]@) by {
                if k < rest.len() {
                    assert(all[k] == rest[k]);
                }
            }
            assert forall|j: int, k: int| 0 <= j < k < all.len() implies all[j] < all[k] by {
                assert(all[j] == rest[j]);
                if k < rest.len() {
                    assert(all[k] == rest[k]);
                }
            }
        }
    }
}

/// Whether `name` has the extension `png`.
fn is_png_name(name: &String) -> (b: bool)
    ensures
        b == has_png_extension(name@),
{
    let s = name.as_str();
    let n = s.unicode_len();
    if n <= 4 {
        return false;
    }
    proof {
        reveal_strlit(".png");
    }
    let b = s.get_char(n - 4) == '.' && s.get_char(n - 3) == 'p' && s.get_char(n - 2) == 'n'
        && s.get_char(n - 1) == 'g';
    let ghost tail = name@.subrange(n - 4, n as int);
    assert(tail[0] == name@[n - 4] && tail[1] == name@[n - 3] && tail[2] == name@[n - 2] && tail[3]
        == name@[n - 1]);
    if b {
        assert(tail =~= ".png"@);
    } else {
        assert(tail != ".png"@) by {
            if tail == ".png"@ {
                assert(".png"@[0] == '.' && ".png"@[1] == 'p' && ".png"@[2] == 'n' && ".png"@[3]
                    == 'g');
            }
        }
    }
    b
}

/// Puts the positions in a random order.
///
/// Calls `rand::seq::SliceRandom::shuffle` with the thread-local generator
/// `rand::thread_rng()`. A shuffle swaps items, so the positions after it are
/// those before it, each as often; which order comes out is random and is not
/// stated.
#[verifier::external_body]
fn shuffle_positions(positions: &mut Vec<usize>)
    ensures
        final(positions)@.to_multiset() == old(positions)@.to_multiset(),
{
    rand::seq::SliceRandom::shuffle(positions.as_mut_slice(), &mut rand::thread_rng());
}

/// Picks up to `count` of the files named in `names` that have the extension
/// `png`, in random order, each at most once: the positions of the chosen names.
pub fn choose_images(names: &Vec<String>, count: usize) -> (chosen: Vec<usize>)
    ensures
        chosen@.len() == if count < png_positions(names@).len() {
            count as nat
        } else {
            png_positions(names@).len()
        },
        chosen@.no_duplicates(),
        forall|k: int|
            0 <= k < chosen@.len() ==> (#[trigger] chosen@[k] as int) < names@.len()
                && has_png_extension(names@[chosen@[k] as int]@),
        exists|order: Seq<usize>|
            order.to_multiset() == png_positions(names@).to_multiset() && chosen@ == order.take(
                chosen@.len() as int,
            ),
{
    let mut positions: Vec<usize> = Vec::new();
    let mut i: usize = 0;
    while i < names.len()
        invariant
            i <= names@.len(),
            positions@ == png_positions(names@.take(i as int)),
        decreases names.len() - i,
    {
        assert(names@.take(i + 1).drop_last() =~= names@.take(i as int));
        if is_png_name(&names[i]) {
            positions.push(i);
        }
        i = i + 1;
    }
    assert(names@.take(names@.len() as int) =~= names@);
    let ghost listed = positions@;
    proof {
        lemma_png_positions(names@);
        assert(listed.no_duplicates());
        listed.lemma_multiset_has_no_duplicates();
    }
    shuffle_positions(&mut positions);
    let ghost order = positions@;
    proof {
        broadcast use vstd::seq_lib::group_to_multiset_ensures;
        assert(order.len() == listed.len()) by {
            assert(order.len() == order.to_multiset().len());
            assert(listed.len() == listed.to_multiset().len());
        }
        assert forall|x: usize| order.to_multiset().contains(x) implies order.to_multiset().count(x)
            == 1 by {}
        order.lemma_multiset_has_no_duplicates_conv();
        assert forall|k: int| 0 <= k < order.len() implies (order[k] as int) < names@.len()
            && has_png_extension(names@[order[k] as int]@) by {
            assert(order.contains(order[k]));
            assert(order.to_multiset().count(order[k]) > 0);
            assert(listed.contains(order[k]));
        }
    }
    let keep = if count < positions.len() {
        count
    } else {
        positions.len()
    };
    positions.truncate(keep);
    assert(positions@ =~= order.take(keep as int));
    positions
}

/// Position of the `p`-th percentile in a list of `len` sorted values:
/// `len * p / 100` rounded down, but at most the last position.
pub open spec fn percentile_index(len: nat, p: nat) -> nat
    recommends
        len > 0,
{
    let raw = len * p / 100;
    if raw < len - 1 {
        raw
    } else {
        (len - 1) as nat
    }
}

/// The `p`-th percentile of `sorted`: its element at `percentile_index`, or 0
/// when `sorted` is empty.
pub fn percentile(sorted: &[u64], p: u64) -> (v: u64)
    ensures
        sorted@.len() == 0 ==> v == 0,
        sorted@.len() > 0 ==> v == sorted@[percentile_index(sorted@.len(), p as nat) as int],
{
    if sorted.len() == 0 {
        return 0;
    }
    let len = sorted.len();
    assert((len as nat) * (p as nat) <= (usize::MAX as nat) * (u64::MAX as nat)) by (nonlinear_arith)
        requires
            len <= usize::MAX,
            p <= u64::MAX,
    ;
    let raw: u128 = (len as u128) * (p as u128) / 100;
    let last = len - 1;
    let idx: usize = if raw < last as u128 {
        raw as usize
    } else {
        last
    };
    sorted[idx]
}

} // verus!
