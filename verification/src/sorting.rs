//! A stable insertion sort, by any ranking that is a total preorder.
use vstd::prelude::*;
use vstd::relations::sorted_by;

verus! {

/// A ranking of the values of `T`: a total preorder on their views.
pub trait Ranking<T: View> {
    /// `a` ranks at or before `b`.
    spec fn rank_le(a: T::V, b: T::V) -> bool;

    /// Any two values are comparable.
    proof fn lemma_rank_total(a: T::V, b: T::V)
        ensures
            Self::rank_le(a, b) || Self::rank_le(b, a),
    ;

    /// The ranking is transitive.
    proof fn lemma_rank_transitive(a: T::V, b: T::V, c: T::V)
        requires
            Self::rank_le(a, b),
            Self::rank_le(b, c),
        ensures
            Self::rank_le(a, c),
    ;

    /// Decides the ranking of two values.
    fn ranks_before(a: &T, b: &T) -> (r: bool)
        ensures
            r == Self::rank_le(a@, b@),
    ;
}

/// The views of a sequence of values, element by element.
pub open spec fn views<T: View>(s: Seq<T>) -> Seq<T::V> {
    s.map_values(|t: T| t@)
}

/// The ranking of `T` as a relation.
pub open spec fn rank_relation<T: View, R: Ranking<T>>() -> spec_fn(T::V, T::V) -> bool {
    |a: T::V, b: T::V| R::rank_le(a, b)
}

/// `s` is in rank order: no element ranks strictly after a later one.
pub open spec fn in_rank_order<T: View, R: Ranking<T>>(s: Seq<T::V>) -> bool {
    sorted_by(s, rank_relation::<T, R>())
}

/// The elements of `s` that rank the same as `x`, in the order they have in `s`.
pub open spec fn rank_class<T: View, R: Ranking<T>>(s: Seq<T::V>, x: T::V) -> Seq<T::V> {
    s.filter(|y: T::V| R::rank_le(x, y) && R::rank_le(y, x))
}

/// `out` is the stable sort of `input`: the same elements, in rank order, and
/// elements of equal rank in the order in which `input` has them.
pub open spec fn is_stable_sort_of<T: View, R: Ranking<T>>(out: Seq<T::V>, input: Seq<T::V>) -> bool {
    &&& out.to_multiset() == input.to_multiset()
    &&& in_rank_order::<T, R>(out)
    &&& forall|x: T::V| #[trigger] rank_class::<T, R>(out, x) == rank_class::<T, R>(input, x)
}

proof fn lemma_rank_order_at<T: View, R: Ranking<T>>(s: Seq<T::V>, i: int, j: int)
    requires
        in_rank_order::<T, R>(s),
        0 <= i < j < s.len(),
    ensures
        R::rank_le(s[i], s[j]),
{
    let le = rank_relation::<T, R>();
    assert(le(s[i], s[j]));
}

proof fn lemma_rank_class_none<T: View, R: Ranking<T>>(s: Seq<T::V>, x: T::V)
    requires
        forall|i: int| 0 <= i < s.len() ==> !(R::rank_le(x, #[trigger] s[i]) && R::rank_le(s[i], x)),
    ensures
        rank_class::<T, R>(s, x) == Seq::<T::V>::empty(),
{
    let pred = |y: T::V| R::rank_le(x, y) && R::rank_le(y, x);
    assert(s.all(|y: T::V| !pred(y)));
    s.lemma_all_neg_filter_empty(pred);
    assert(s.filter(pred) =~= Seq::<T::V>::empty());
}

proof fn lemma_rank_class_single<T: View, R: Ranking<T>>(e: T::V, x: T::V)
    ensures
        rank_class::<T, R>(seq![e], x) == if R::rank_le(x, e) && R::rank_le(e, x) {
            seq![e]
        } else {
            Seq::<T::V>::empty()
        },
{
    let pred = |y: T::V| R::rank_le(x, y) && R::rank_le(y, x);
    reveal_with_fuel(Seq::filter, 2);
    assert(seq![e].drop_last() =~= Seq::<T::V>::empty());
    assert(seq![e].filter(pred) =~= if pred(e) {
        seq![e]
    } else {
        Seq::<T::V>::empty()
    });
}

proof fn lemma_rank_class_concat<T: View, R: Ranking<T>>(a: Seq<T::V>, b: Seq<T::V>, x: T::V)
    ensures
        rank_class::<T, R>(a + b, x) == rank_class::<T, R>(a, x) + rank_class::<T, R>(b, x),
{
    let pred = |y: T::V| R::rank_le(x, y) && R::rank_le(y, x);
    Seq::filter_distributes_over_add(a, b, pred);
}

/// Placing `e` in front of every element that it ranks at or before, and
/// behind those that rank strictly before it, extends a stable sort by one
/// element at the front of the input.
proof fn lemma_insert_keeps_stable_sort<T: View, R: Ranking<T>>(
    out: Seq<T::V>,
    tail: Seq<T::V>,
    e: T::V,
    p: int,
)
    requires
        is_stable_sort_of::<T, R>(out, tail),
        0 <= p <= out.len(),
        forall|i: int| 0 <= i < p ==> !R::rank_le(e, #[trigger] out[i]),
        p < out.len() ==> R::rank_le(e, out[p]),
    ensures
        is_stable_sort_of::<T, R>(out.insert(p, e), seq![e] + tail),
{
    let out2 = out.insert(p, e);
    let input2 = seq![e] + tail;
    let left = out.subrange(0, p);
    let right = out.subrange(p, out.len() as int);
    assert(out =~= left + right);
    assert(out2 =~= left + seq![e] + right);
    // the same elements
    vstd::seq_lib::to_multiset_insert(out, p, e);
    assert(input2 =~= tail.insert(0, e));
    vstd::seq_lib::to_multiset_insert(tail, 0, e);
    // in rank order
    assert forall|i: int, j: int| 0 <= i < j < out2.len() implies R::rank_le(
        #[trigger] out2[i],
        #[trigger] out2[j],
    ) by {
        if j < p {
            lemma_rank_order_at::<T, R>(out, i, j);
        } else if j == p {
            R::lemma_rank_total(e, out[i]);
        } else if i < p {
            lemma_rank_order_at::<T, R>(out, i, j - 1);
        } else if i == p {
            if j - 1 > p {
                lemma_rank_order_at::<T, R>(out, p, j - 1);
                R::lemma_rank_transitive(e, out[p], out[j - 1]);
            }
        } else {
            lemma_rank_order_at::<T, R>(out, i - 1, j - 1);
        }
    }
    assert(in_rank_order::<T, R>(out2));
    // equal ranks keep their order
    assert forall|x: T::V| #[trigger] rank_class::<T, R>(out2, x) == rank_class::<T, R>(input2, x) by {
        lemma_rank_class_concat::<T, R>(left + seq![e], right, x);
        lemma_rank_class_concat::<T, R>(left, seq![e], x);
        lemma_rank_class_concat::<T, R>(left, right, x);
        lemma_rank_class_concat::<T, R>(seq![e], tail, x);
        lemma_rank_class_single::<T, R>(e, x);
        assert(rank_class::<T, R>(out, x) == rank_class::<T, R>(tail, x));
        if R::rank_le(x, e) && R::rank_le(e, x) {
            assert forall|i: int| 0 <= i < left.len() implies !(R::rank_le(x, #[trigger] left[i])
                && R::rank_le(left[i], x)) by {
                assert(left[i] == out[i]);
                if R::rank_le(x, left[i]) {
                    R::lemma_rank_transitive(e, x, left[i]);
                }
            }
            lemma_rank_class_none::<T, R>(left, x);
            assert(rank_class::<T, R>(out2, x) =~= seq![e] + rank_class::<T, R>(right, x));
            assert(rank_class::<T, R>(out, x) =~= rank_class::<T, R>(right, x));
        } else {
            assert(rank_class::<T, R>(out2, x) =~= rank_class::<T, R>(left, x) + rank_class::<T, R>(
                right,
                x,
            ));
            assert(rank_class::<T, R>(input2, x) =~= rank_class::<T, R>(tail, x));
        }
    }
}

/// Sorts `items` into rank order, keeping elements of equal rank in the order
/// in which they were given.
pub fn sort_stable<T: View, R: Ranking<T>>(items: Vec<T>) -> (out: Vec<T>)
    ensures
        is_stable_sort_of::<T, R>(views(out@), views(items@)),
        out@.len() == items@.len(),
{
    let ghost input = views(items@);
    let mut rest = items;
    let mut out: Vec<T> = Vec::new();
    proof {
        assert(input.subrange(rest@.len() as int, input.len() as int) =~= Seq::<T::V>::empty());
        assert(views(out@) =~= Seq::<T::V>::empty());
        assert forall|x: T::V| #[trigger]
            rank_class::<T, R>(Seq::<T::V>::empty(), x) == Seq::<T::V>::empty() by {
            lemma_rank_class_none::<T, R>(Seq::<T::V>::empty(), x);
        }
    }
    while rest.len() > 0
        invariant
            views(rest@) == input.subrange(0, rest@.len() as int),
            rest@.len() <= input.len(),
            out@.len() + rest@.len() == input.len(),
            is_stable_sort_of::<T, R>(
                views(out@),
                input.subrange(rest@.len() as int, input.len() as int),
            ),
        decreases rest@.len(),
    {
        let ghost before = rest@;
        let ghost tail = input.subrange(rest@.len() as int, input.len() as int);
        let e = rest.pop().unwrap();
        assert(e@ == input[rest@.len() as int]) by {
            assert(views(before)[before.len() - 1] == before[before.len() - 1]@);
        }
        assert(views(rest@) =~= input.subrange(0, rest@.len() as int)) by {
            assert forall|i: int| 0 <= i < rest@.len() implies views(rest@)[i] == input[i] by {
                assert(views(before)[i] == before[i]@);
            }
        }
        let mut p: usize = 0;
        while p < out.len() && !R::ranks_before(&e, &out[p])
            invariant
                p <= out@.len(),
                forall|i: int| 0 <= i < p ==> !R::rank_le(e@, #[trigger] views(out@)[i]),
            decreases out@.len() - p,
        {
            p += 1;
        }
        proof {
            lemma_insert_keeps_stable_sort::<T, R>(views(out@), tail, e@, p as int);
            assert(seq![e@] + tail =~= input.subrange(rest@.len() as int, input.len() as int));
            assert(views(out@.insert(p as int, e)) =~= views(out@).insert(p as int, e@));
        }
        out.insert(p, e);
    }
    proof {
        assert(input.subrange(0, input.len() as int) =~= input);
    }
    out
}

} // verus!
