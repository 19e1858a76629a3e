//! Splitting a purge into delete calls that respect the platform's bulk-delete limit.
use vstd::prelude::*;

verus! {

/// The most messages one bulk-delete call may name.
pub const MAX_BULK_DELETE: usize = 100;

/// One delete call.
#[derive(Debug)]
pub enum DeleteCall {
    /// Delete these messages at once.
    Bulk(Vec<u64>),
    /// Delete this one message.
    Single(u64),
}

/// A delete call, as plain values.
pub enum DeleteCallView {
    Bulk(Seq<u64>),
    Single(u64),
}

impl View for DeleteCall {
    type V = DeleteCallView;

    open spec fn view(&self) -> DeleteCallView {
        match self {
            DeleteCall::Bulk(v) => DeleteCallView::Bulk(v@),
            DeleteCall::Single(id) => DeleteCallView::Single(*id),
        }
    }
}

/// The calls for the trailing `rest` ids, fewer than a batch: none, a single delete, or one bulk
/// call.
pub open spec fn remainder_calls(rest: Seq<u64>) -> Seq<DeleteCallView> {
    if rest.len() == 0 {
        Seq::empty()
    } else if rest.len() == 1 {
        seq![DeleteCallView::Single(rest[0])]
    } else {
        seq![DeleteCallView::Bulk(rest)]
    }
}

/// The calls that delete `ids` in order: one bulk call per full batch of `b`, then the calls
/// for the remainder.
pub open spec fn delete_plan(ids: Seq<u64>, b: nat) -> Seq<DeleteCallView>
    recommends
        b > 0,
{
    let full = ids.len() / b;
    Seq::new(full, |k: int| DeleteCallView::Bulk(ids.subrange(k * b, k * b + b))) + remainder_calls(
        ids.subrange((full * b) as int, ids.len() as int),
    )
}

/// The ids that a call deletes.
pub open spec fn call_ids(c: DeleteCallView) -> Seq<u64> {
    match c {
        DeleteCallView::Bulk(v) => v,
        DeleteCallView::Single(id) => seq![id],
    }
}

/// The ids that calls delete, call after call.
pub open spec fn calls_ids(cs: Seq<DeleteCallView>) -> Seq<u64>
    decreases cs.len(),
{
    if cs.len() == 0 {
        Seq::empty()
    } else {
        calls_ids(cs.drop_last()) + call_ids(cs.last())
    }
}

/// Splits `ids` into delete calls of at most `batch` messages each, in order.
pub fn delete_batches(ids: &Vec<u64>, batch: usize) -> (r: Vec<DeleteCall>)
    requires
        batch > 0,
    ensures
        r@.map_values(|c: DeleteCall| c@) == delete_plan(ids@, batch as nat),
{
    let n = ids.len();
    let full = n / batch;
    let mut out: Vec<DeleteCall> = Vec::new();
    let mut k: usize = 0;
    proof {
        assert(full * batch <= n) by (nonlinear_arith)
            requires
                full == n / batch,
                batch > 0,
        ;
    }
    while k < full
        invariant
            n == ids@.len(),
            full == n / batch,
            full * batch <= n,
            batch > 0,
            k <= full,
            out@.len() == k,
            forall|j: int|
                0 <= j < k ==> #[trigger] out@[j]@ == DeleteCallView::Bulk(
                    ids@.subrange(j * batch, j * batch + batch),
                ),
        decreases full - k,
    {
        proof {
            assert(k * batch + batch <= full * batch) by (nonlinear_arith)
                requires
                    k < full,
            ;
        }
        let start = k * batch;
        let mut chunk: Vec<u64> = Vec::new();
        let mut i: usize = 0;
        while i < batch
            invariant
                n == ids@.len(),
                start + batch <= n,
                i <= batch,
                chunk@ == ids@.subrange(start as int, start + i),
            decreases batch - i,
        {
            chunk.push(ids[start + i]);
            assert(ids@.subrange(start as int, start + i + 1) =~= ids@.subrange(
                start as int,
                start + i,
            ).push(ids@[start + i]));
            i = i + 1;
        }
        out.push(DeleteCall::Bulk(chunk));
        k = k + 1;
    }
    let rest_start = full * batch;
    let rest = n - rest_start;
    let ghost rest_ids = ids@.subrange(rest_start as int, n as int);
    if rest == 1 {
        out.push(DeleteCall::Single(ids[rest_start]));
    } else if rest > 1 {
        let mut chunk: Vec<u64> = Vec::new();
        let mut i: usize = rest_start;
        while i < n
            invariant
                n == ids@.len(),
                rest_start <= i <= n,
                chunk@ == ids@.subrange(rest_start as int, i as int),
            decreases n - i,
        {
            chunk.push(ids[i]);
            assert(ids@.subrange(rest_start as int, i + 1) =~= ids@.subrange(
                rest_start as int,
                i as int,
            ).push(ids@[i as int]));
            i = i + 1;
        }
        out.push(DeleteCall::Bulk(chunk));
    }
    assert(out@.map_values(|c: DeleteCall| c@) =~= delete_plan(ids@, batch as nat));
    out
}

proof fn lemma_calls_ids_append(a: Seq<DeleteCallView>, b: Seq<DeleteCallView>)
    ensures
        calls_ids(a + b) == calls_ids(a) + calls_ids(b),
    decreases b.len(),
{
    if b.len() == 0 {
        assert(a + b =~= a);
        assert(calls_ids(a) + calls_ids(b) =~= calls_ids(a));
    } else {
        lemma_calls_ids_append(a, b.drop_last());
        assert((a + b).drop_last() =~= a + b.drop_last());
        assert(calls_ids(a) + calls_ids(b) =~= calls_ids(a) + calls_ids(b.drop_last()) + call_ids(
            b.last(),
        ));
    }
}

proof fn lemma_full_batches(ids: Seq<u64>, b: nat, k: nat)
    requires
        b > 0,
        k * b <= ids.len(),
    ensures
        calls_ids(Seq::new(k, |j: int| DeleteCallView::Bulk(ids.subrange(j * b, j * b + b))))
            == ids.subrange(0, (k * b) as int),
    decreases k,
{
    let cs = Seq::new(k, |j: int| DeleteCallView::Bulk(ids.subrange(j * b, j * b + b)));
    if k == 0 {
        assert(k * b == 0) by (nonlinear_arith)
            requires
                k == 0,
        ;
        assert(ids.subrange(0, 0) =~= Seq::<u64>::empty());
        assert(calls_ids(cs) == Seq::<u64>::empty());
    } else {
        let m = (k - 1) as nat;
        assert(m * b + b == k * b) by (nonlinear_arith)
            requires
                m == k - 1,
        ;
        assert(m * b <= ids.len()) by (nonlinear_arith)
            requires
                m * b + b <= ids.len(),
                b > 0,
        ;
        lemma_full_batches(ids, b, m);
        assert(cs.drop_last() =~= Seq::new(
            m,
            |j: int| DeleteCallView::Bulk(ids.subrange(j * b, j * b + b)),
        ));
        let front = Seq::new(m, |j: int| DeleteCallView::Bulk(ids.subrange(j * b, j * b + b)));
        assert(cs.last() == DeleteCallView::Bulk(ids.subrange((m * b) as int, (m * b + b) as int)));
        assert(calls_ids(cs) == calls_ids(cs.drop_last()) + call_ids(cs.last()));
        assert(calls_ids(front) == ids.subrange(0, (m * b) as int));
        assert(calls_ids(cs) == ids.subrange(0, (m * b) as int) + ids.subrange(
            (m * b) as int,
            (m * b + b) as int,
        ));
        assert(ids.subrange(0, (k * b) as int) =~= ids.subrange(0, (m * b) as int) + ids.subrange(
            (m * b) as int,
            (m * b + b) as int,
        ));
    }
}

/// The calls of a purge delete every id exactly once and in order; no call names more than `b`
/// ids; and a call naming a single id is a single delete, never a bulk call.
pub proof fn lemma_delete_plan(ids: Seq<u64>, b: nat)
    requires
        b > 0,
    ensures
        calls_ids(delete_plan(ids, b)) == ids,
        forall|k: int|
            0 <= k < delete_plan(ids, b).len() ==> #[trigger] call_ids(delete_plan(ids, b)[k]).len()
                <= b,
        forall|k: int|
            0 <= k < delete_plan(ids, b).len() && delete_plan(ids, b)[k] is Bulk ==> (b > 1 ==>
                #[trigger] call_ids(delete_plan(ids, b)[k]).len() > 1),
{
    let full = ids.len() / b;
    assert(full * b <= ids.len()) by (nonlinear_arith)
        requires
            full == ids.len() / b,
            b > 0,
    ;
    assert(ids.len() - full * b < b) by (nonlinear_arith)
        requires
            full == ids.len() / b,
            b > 0,
    ;
    let fulls = Seq::new(full, |j: int| DeleteCallView::Bulk(ids.subrange(j * b, j * b + b)));
    let rest = ids.subrange((full * b) as int, ids.len() as int);
    lemma_full_batches(ids, b, full);
    lemma_calls_ids_append(fulls, remainder_calls(rest));
    if rest.len() == 0 {
        assert(calls_ids(remainder_calls(rest)) =~= Seq::<u64>::empty());
    } else if rest.len() == 1 {
        assert(calls_ids(remainder_calls(rest)) =~= rest) by {
            let cs = remainder_calls(rest);
            assert(cs.drop_last() =~= Seq::<DeleteCallView>::empty());
            assert(calls_ids(cs.drop_last()) =~= Seq::<u64>::empty());
            assert(calls_ids(cs) == calls_ids(cs.drop_last()) + call_ids(cs.last()));
            assert(call_ids(cs.last()) =~= rest);
        }
    } else {
        assert(calls_ids(remainder_calls(rest)) =~= rest) by {
            let cs = remainder_calls(rest);
            assert(cs.drop_last() =~= Seq::<DeleteCallView>::empty());
            assert(calls_ids(cs.drop_last()) =~= Seq::<u64>::empty());
            assert(calls_ids(cs) == calls_ids(cs.drop_last()) + call_ids(cs.last()));
            assert(call_ids(cs.last()) =~= rest);
        }
    }
    assert(ids =~= ids.subrange(0, (full * b) as int) + rest);
    assert forall|k: int|
        0 <= k < delete_plan(ids, b).len() implies #[trigger] call_ids(delete_plan(ids, b)[k]).len()
        <= b && (delete_plan(ids, b)[k] is Bulk ==> (b > 1 ==> call_ids(delete_plan(ids, b)[k]).len()
        > 1)) by {
        if k < full {
            assert(k * b + b <= full * b) by (nonlinear_arith)
                requires
                    k < full,
                    b > 0,
            ;
        }
    }
}

} // verus!
