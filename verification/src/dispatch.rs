use vstd::arithmetic::div_mod::{
    lemma_div_by_multiple, lemma_div_is_ordered, lemma_fundamental_div_mod,
    lemma_fundamental_div_mod_converse,
};
use vstd::arithmetic::mul::lemma_mul_inequality;
use vstd::prelude::*;

use crate::jsonrpc::{JsonRpcError, JsonRpcId, JsonRpcRequest, JsonRpcResult};

verus! {

/// A caller-supplied description of one logical remote call: the JSON-RPC
/// method name and its ordered parameter values. The dispatch logic never
/// inspects the parameters; they are carried through to the wire envelope.
#[derive(Debug, PartialEq)]
pub struct RequestDescriptor {
    pub method: &'static str,
    pub params: Vec<serde_json::Value>,
}

/// The mathematical model of a descriptor: its method name as a character
/// sequence and its parameter values.
#[verifier::ext_equal]
pub ghost struct DescriptorView {
    pub method: Seq<char>,
    pub params: Seq<serde_json::Value>,
}

impl View for RequestDescriptor {
    type V = DescriptorView;

    open spec fn view(&self) -> DescriptorView {
        DescriptorView { method: self.method@, params: self.params@ }
    }
}

impl DeepView for RequestDescriptor {
    type V = DescriptorView;

    open spec fn deep_view(&self) -> DescriptorView {
        self.view()
    }
}

/// Copies the parameter list of a descriptor; the copy holds the same values.
fn clone_params(params: &Vec<serde_json::Value>) -> (r: Vec<serde_json::Value>)
    ensures
        r@ == params@,
{
    let mut out: Vec<serde_json::Value> = Vec::new();
    let n = params.len();
    for i in 0..n
        invariant
            n == params@.len(),
            out@ == params@.take(i as int),
    {
        out.push(params[i].clone());
        assert(out@ =~= params@.take(i + 1));
    }
    assert(out@ =~= params@);
    out
}

/// Copies a descriptor; the copy has the same method name and parameters.
fn clone_descriptor(d: &RequestDescriptor) -> (r: RequestDescriptor)
    ensures
        r@ == d@,
{
    let r = RequestDescriptor { method: d.method, params: clone_params(&d.params) };
    assert(r@ =~= d@);
    r
}

/// An ordered, contiguous sub-sequence of the original descriptor sequence,
/// together with its absolute starting offset in that sequence.
#[derive(Debug, PartialEq)]
pub struct Chunk {
    pub start_offset: usize,
    pub items: Vec<RequestDescriptor>,
}

/// The mathematical model of a chunk.
#[verifier::ext_equal]
pub ghost struct ChunkView {
    pub start_offset: int,
    pub items: Seq<DescriptorView>,
}

impl View for Chunk {
    type V = ChunkView;

    open spec fn view(&self) -> ChunkView {
        ChunkView { start_offset: self.start_offset as int, items: self.items.deep_view() }
    }
}

impl DeepView for Chunk {
    type V = ChunkView;

    open spec fn deep_view(&self) -> ChunkView {
        self.view()
    }
}

/// How many chunks a sequence of `n` descriptors yields at chunk size `c`:
/// the ceiling of `n / c`.
pub open spec fn num_chunks(n: int, c: int) -> int {
    (n + c - 1) / c
}

/// The length of chunk `k`: `c` for every chunk but possibly the last.
pub open spec fn chunk_len(n: int, c: int, k: int) -> int {
    if n - k * c < c {
        n - k * c
    } else {
        c
    }
}

/// The chunk layout is a pure function of the descriptor sequence and the
/// chunk size: chunk `k` starts at absolute offset `k * c` and holds the
/// next `chunk_len` descriptors, in their original order.
pub open spec fn spec_plan(dv: Seq<DescriptorView>, c: int) -> Seq<ChunkView> {
    Seq::new(
        num_chunks(dv.len() as int, c) as nat,
        |k: int|
            ChunkView {
                start_offset: k * c,
                items: dv.subrange(k * c, k * c + chunk_len(dv.len() as int, c, k)),
            },
    )
}

/// Copies the descriptor range `start..end` in order.
fn clone_slice(descriptors: &Vec<RequestDescriptor>, start: usize, end: usize) -> (r: Vec<
    RequestDescriptor,
>)
    requires
        start <= end <= descriptors@.len(),
    ensures
        r.deep_view() == descriptors.deep_view().subrange(start as int, end as int),
{
    let mut out: Vec<RequestDescriptor> = Vec::new();
    for i in start..end
        invariant
            start <= i <= end <= descriptors@.len(),
            out@.len() == i - start,
            forall|j: int| 0 <= j < out@.len() ==> #[trigger] out@[j]@ == descriptors@[start + j]@,
    {
        out.push(clone_descriptor(&descriptors[i]));
    }
    proof {
        assert forall|j: int|
            0 <= j < out@.len() implies out.deep_view()[j] == descriptors.deep_view().subrange(
            start as int,
            end as int,
        )[j] by {
            assert(out@[j]@ == descriptors@[start + j]@);
        }
        assert(out.deep_view() =~= descriptors.deep_view().subrange(start as int, end as int));
    }
    out
}

/// A chunk index that has not yet covered the whole input leaves room for
/// at least one more chunk.
proof fn lemma_num_chunks_lower(n: int, c: int, k: int)
    requires
        1 <= c,
        0 <= k,
        k * c < n,
    ensures
        k + 1 <= num_chunks(n, c),
{
    assert((k + 1) * c == k * c + c) by (nonlinear_arith);
    assert((k + 1) * c <= n + c - 1);
    lemma_div_is_ordered((k + 1) * c, n + c - 1, c);
    lemma_div_by_multiple(k + 1, c);
}

/// Once `k` chunks cover the whole input and `k - 1` chunks did not,
/// `k` is exactly the chunk count.
proof fn lemma_num_chunks_exact(n: int, c: int, k: int)
    requires
        1 <= c,
        1 <= k,
        (k - 1) * c < n,
        n <= k * c,
    ensures
        num_chunks(n, c) == k,
{
    let r = n + c - 1 - k * c;
    assert((k - 1) * c == k * c - c) by (nonlinear_arith);
    lemma_fundamental_div_mod_converse(n + c - 1, c, k, r);
}

/// Every chunk index below the chunk count starts strictly inside the input.
proof fn lemma_chunk_start_in_range(n: int, c: int, k: int)
    requires
        1 <= c,
        1 <= n,
        0 <= k,
        k < num_chunks(n, c),
    ensures
        k * c < n,
{
    if k * c >= n {
        assert((k + 1) * c == k * c + c) by (nonlinear_arith);
        lemma_div_is_ordered(n + c - 1, (k + 1) * c - 1, c);
        lemma_fundamental_div_mod_converse((k + 1) * c - 1, c, k, c - 1);
        assert(false);
    }
}

/// Partitions the descriptors into `ceil(n / chunk_size)` chunks that
/// preserve the input order; fails before any exchange when the input is
/// empty or the chunk size is zero. The resulting layout is exactly
/// `spec_plan`, so planning the same input twice yields the same chunks.
pub fn plan(descriptors: &Vec<RequestDescriptor>, chunk_size: usize) -> (r: Result<
    Vec<Chunk>,
    JsonRpcError,
>)
    ensures
        r is Err <==> (descriptors@.len() == 0 || chunk_size == 0),
        r is Err ==> (r->Err_0).code == crate::jsonrpc::INVALID_REQUEST_CODE && (
        r->Err_0).message@ == "Invalid Request"@,
        r is Ok ==> (r->Ok_0).deep_view() == spec_plan(
            descriptors.deep_view(),
            chunk_size as int,
        ),
{
    if descriptors.len() == 0 || chunk_size == 0 {
        return Err(JsonRpcError::invalid_request());
    }
    let ghost dv = descriptors.deep_view();
    let ghost n = descriptors@.len() as int;
    let ghost c = chunk_size as int;
    let len = descriptors.len();
    let mut chunks: Vec<Chunk> = Vec::new();
    let mut start: usize = 0;
    proof {
        assert(chunks@.len() * c == 0) by (nonlinear_arith)
            requires
                chunks@.len() == 0,
        ;
    }
    while start < len
        invariant
            len == n,
            1 <= c,
            chunk_size == c,
            1 <= n,
            dv == descriptors.deep_view(),
            dv.len() == n,
            start <= len,
            start == vstd::math::min(chunks@.len() * c, n),
            chunks@.len() >= 1 ==> (chunks@.len() - 1) * c < n,
            forall|q: int| 0 <= q < chunks@.len() ==> #[trigger] chunks@[q]@ == spec_plan(dv, c)[q],
        decreases len - start,
    {
        let ghost k = chunks@.len() as int;
        proof {
            assert(k * c == start);
            lemma_num_chunks_lower(n, c, k);
            assert((k + 1) * c == k * c + c) by (nonlinear_arith);
        }
        let end = if len - start < chunk_size {
            len
        } else {
            start + chunk_size
        };
        let items = clone_slice(descriptors, start, end);
        let chunk = Chunk { start_offset: start, items };
        proof {
            assert(end == k * c + chunk_len(n, c, k));
            assert(chunk@ == spec_plan(dv, c)[k]);
        }
        chunks.push(chunk);
        start = end;
    }
    proof {
        let k = chunks@.len() as int;
        assert(k >= 1);
        assert(k * c >= n);
        lemma_num_chunks_exact(n, c, k);
        assert forall|q: int| 0 <= q < chunks@.len() implies chunks.deep_view()[q] == spec_plan(
            dv,
            c,
        )[q] by {
            assert(chunks@[q]@ == spec_plan(dv, c)[q]);
        }
        assert(chunks.deep_view() =~= spec_plan(dv, c));
    }
    Ok(chunks)
}

/// One envelope is faithful to its descriptor: protocol version `"2.0"`,
/// the given integer correlation id, and the descriptor's method name and
/// parameters, unchanged.
pub open spec fn envelope_matches(env: JsonRpcRequest, d: DescriptorView, id: int) -> bool {
    &&& env.jsonrpc@ == crate::jsonrpc::JSONRPC_VERSION@
    &&& env.id == JsonRpcId::Integer(id as u64)
    &&& env.method@ == d.method
    &&& env.params@ == d.params
}

/// Assigns contiguous 1-based correlation ids starting after `start_offset`
/// and builds one wire envelope per descriptor, in order.
pub fn assign_ids(items: &Vec<RequestDescriptor>, start_offset: usize) -> (r: Vec<JsonRpcRequest>)
    requires
        start_offset + items@.len() <= u64::MAX,
    ensures
        r@.len() == items@.len(),
        forall|j: int|
            0 <= j < r@.len() ==> envelope_matches(
                #[trigger] r@[j],
                items@[j]@,
                start_offset + j + 1,
            ),
{
    let mut out: Vec<JsonRpcRequest> = Vec::new();
    let n = items.len();
    for j in 0..n
        invariant
            n == items@.len(),
            start_offset + n <= u64::MAX,
            out@.len() == j,
            forall|q: int|
                0 <= q < out@.len() ==> envelope_matches(
                    #[trigger] out@[q],
                    items@[q]@,
                    start_offset + q + 1,
                ),
    {
        let d = &items[j];
        let id = (start_offset as u64) + (j as u64) + 1;
        out.push(JsonRpcRequest::new(d.method, clone_params(&d.params), id));
    }
    out
}

/// Builds the single-exchange batch body: one envelope per descriptor with
/// correlation ids `1..=n`; an empty batch is rejected before any exchange.
pub fn prepare_batch(descriptors: &Vec<RequestDescriptor>) -> (r: Result<
    Vec<JsonRpcRequest>,
    JsonRpcError,
>)
    ensures
        r is Err <==> descriptors@.len() == 0,
        r is Err ==> (r->Err_0).code == crate::jsonrpc::INVALID_REQUEST_CODE && (
        r->Err_0).message@ == "Invalid Request"@,
        r is Ok ==> (r->Ok_0)@.len() == descriptors@.len() && forall|j: int|
            0 <= j < descriptors@.len() ==> envelope_matches(
                #[trigger] (r->Ok_0)@[j],
                descriptors@[j]@,
                j + 1,
            ),
{
    if descriptors.len() == 0 {
        return Err(JsonRpcError::invalid_request());
    }
    Ok(assign_ids(descriptors, 0))
}

/// All chunk bodies of one chunked call are faithful: `ceil(n/c)` chunks,
/// chunk `k` holding one envelope per descriptor of its slice, with the
/// globally offset correlation id `k*c + j + 1`.
pub open spec fn chunked_envelopes_ok(
    e: Seq<Vec<JsonRpcRequest>>,
    dv: Seq<DescriptorView>,
    c: int,
) -> bool {
    &&& e.len() == num_chunks(dv.len() as int, c)
    &&& forall|k: int|
        0 <= k < e.len() ==> (#[trigger] e[k])@.len() == chunk_len(dv.len() as int, c, k)
    &&& forall|k: int, j: int|
        0 <= k < e.len() && 0 <= j < e[k]@.len() ==> envelope_matches(
            #[trigger] e[k]@[j],
            dv[k * c + j],
            k * c + j + 1,
        )
}

/// Builds every chunk's wire body for one chunked batch call. Planning and
/// correlation are composed here: the chunk layout is `spec_plan`, and ids
/// carry the global offset `k * chunk_size` of their chunk. Fails before
/// any exchange iff the input is empty or the chunk size is zero.
pub fn prepare_chunked(descriptors: &Vec<RequestDescriptor>, chunk_size: usize) -> (r: Result<
    Vec<Vec<JsonRpcRequest>>,
    JsonRpcError,
>)
    ensures
        r is Err <==> (descriptors@.len() == 0 || chunk_size == 0),
        r is Err ==> (r->Err_0).code == crate::jsonrpc::INVALID_REQUEST_CODE && (
        r->Err_0).message@ == "Invalid Request"@,
        r is Ok ==> chunked_envelopes_ok(
            (r->Ok_0)@,
            descriptors.deep_view(),
            chunk_size as int,
        ),
{
    let ghost dv = descriptors.deep_view();
    let ghost n = descriptors@.len() as int;
    let ghost c = chunk_size as int;
    let chunks = match plan(descriptors, chunk_size) {
        Ok(chunks) => chunks,
        Err(e) => {
            return Err(e);
        },
    };
    let dlen = descriptors.len();
    let mut out: Vec<Vec<JsonRpcRequest>> = Vec::new();
    let count = chunks.len();
    proof {
        assert(chunks.deep_view().len() == count);
        assert(count == num_chunks(n, c));
    }
    for k in 0..count
        invariant
            1 <= c,
            chunk_size == c,
            1 <= n,
            dv == descriptors.deep_view(),
            dv.len() == n,
            n == dlen,
            count == chunks@.len(),
            count == num_chunks(n, c),
            chunks.deep_view() == spec_plan(dv, c),
            out@.len() == k,
            forall|q: int|
                0 <= q < out@.len() ==> (#[trigger] out@[q])@.len() == chunk_len(n, c, q),
            forall|q: int, j: int|
                0 <= q < out@.len() && 0 <= j < out@[q]@.len() ==> envelope_matches(
                    #[trigger] out@[q]@[j],
                    dv[q * c + j],
                    q * c + j + 1,
                ),
    {
        let chunk = &chunks[k];
        proof {
            lemma_chunk_start_in_range(n, c, k as int);
            assert(chunks.deep_view()[k as int] == spec_plan(dv, c)[k as int]);
            assert(chunk@ == spec_plan(dv, c)[k as int]);
            assert(chunk.items.deep_view() == dv.subrange(
                k as int * c,
                k as int * c + chunk_len(n, c, k as int),
            ));
            assert(chunk.start_offset + chunk.items@.len() <= n);
            assert(n <= usize::MAX);
        }
        let envelopes = assign_ids(&chunk.items, chunk.start_offset);
        proof {
            assert forall|j: int|
                0 <= j < envelopes@.len() implies envelope_matches(
                #[trigger] envelopes@[j],
                dv[k as int * c + j],
                k as int * c + j + 1,
            ) by {
                assert(envelope_matches(envelopes@[j], chunk.items@[j]@, chunk.start_offset + j + 1));
                assert(chunk.items@[j]@ == chunk.items.deep_view()[j]);
            }
        }
        out.push(envelopes);
    }
    Ok(out)
}

/// Every chunk exchange of one call succeeded.
pub open spec fn all_chunks_ok<T>(rs: Seq<Result<Vec<JsonRpcResult<T>>, JsonRpcError>>) -> bool {
    forall|k: int| 0 <= k < rs.len() ==> rs[k] is Ok
}

/// The decoded response bodies of the chunk results, in chunk order.
pub open spec fn chunk_bodies<T>(rs: Seq<Result<Vec<JsonRpcResult<T>>, JsonRpcError>>) -> Seq<
    Seq<JsonRpcResult<T>>,
> {
    rs.map_values(|r: Result<Vec<JsonRpcResult<T>>, JsonRpcError>| (r->Ok_0)@)
}

/// The error of the last failed chunk, in chunk order.
pub open spec fn last_error<T>(
    rs: Seq<Result<Vec<JsonRpcResult<T>>, JsonRpcError>>,
) -> JsonRpcError
    decreases rs.len(),
{
    if rs.len() == 0 {
        arbitrary()
    } else if rs.last() is Err {
        rs.last()->Err_0
    } else {
        last_error(rs.drop_last())
    }
}

/// Merges the per-chunk results of one chunked call. All-or-nothing by
/// design: if every chunk succeeded, the result is the concatenation of the
/// chunk bodies in chunk order (per-item `Error` elements are ordinary
/// data and survive the merge); if any chunk failed, the whole call fails
/// with the last failed chunk's error and no partial data is returned.
pub fn aggregate<T>(chunk_results: Vec<Result<Vec<JsonRpcResult<T>>, JsonRpcError>>) -> (r: Result<
    Vec<JsonRpcResult<T>>,
    JsonRpcError,
>)
    ensures
        all_chunks_ok(chunk_results@) ==> r is Ok && (r->Ok_0)@ == chunk_bodies(
            chunk_results@,
        ).flatten(),
        !all_chunks_ok(chunk_results@) ==> r is Err && r->Err_0 == last_error(chunk_results@),
{
    let ghost orig = chunk_results@;
    let mut rest = chunk_results;
    let mut results: Vec<JsonRpcResult<T>> = Vec::new();
    let mut error: Option<JsonRpcError> = None;
    let ghost mut i: int = 0;
    while rest.len() > 0
        invariant
            0 <= i <= orig.len(),
            rest@ == orig.subrange(i, orig.len() as int),
            error is None ==> all_chunks_ok(orig.take(i)) && results@ == chunk_bodies(
                orig.take(i),
            ).flatten(),
            error is Some ==> !all_chunks_ok(orig.take(i)) && error->Some_0 == last_error(
                orig.take(i),
            ),
        decreases rest@.len(),
    {
        proof {
            broadcast use Seq::lemma_flatten_push;
            broadcast use Seq::lemma_push_map_commute;

            assert(rest@[0] == orig[i]);
            assert(orig.take(i + 1) =~= orig.take(i).push(orig[i]));
            assert(orig.take(i).push(orig[i]).drop_last() =~= orig.take(i));
        }
        let item = rest.remove(0);
        proof {
            assert(rest@ =~= orig.subrange(i + 1, orig.len() as int));
        }
        match item {
            Ok(mut body) => {
                proof {
                    broadcast use Seq::lemma_flatten_push;
                    broadcast use Seq::lemma_push_map_commute;

                    if error is None {
                        assert(chunk_bodies(orig.take(i + 1)) =~= chunk_bodies(
                            orig.take(i),
                        ).push(body@));
                    }
                }
                results.append(&mut body);
            },
            Err(e) => {
                error = Some(e);
            },
        }
        proof {
            i = i + 1;
        }
    }
    proof {
        assert(orig.take(i) =~= orig);
    }
    match error {
        Some(e) => Err(e),
        None => Ok(results),
    }
}

/// A flattened prefix of per-chunk bodies whose lengths follow the chunk
/// layout covers exactly `min(m * c, n)` items, each at the global index
/// of its slot.
proof fn lemma_flatten_chunks_prefix<T>(bodies: Seq<Seq<T>>, n: int, c: int, m: int)
    requires
        1 <= c,
        1 <= n,
        bodies.len() == num_chunks(n, c),
        forall|k: int| 0 <= k < bodies.len() ==> (#[trigger] bodies[k]).len() == chunk_len(n, c, k),
        0 <= m <= bodies.len(),
    ensures
        bodies.take(m).flatten().len() == vstd::math::min(m * c, n),
        forall|k: int, j: int|
            0 <= k < m && 0 <= j < #[trigger] bodies[k].len() ==> bodies.take(m).flatten()[k * c
                + j] == #[trigger] bodies[k][j],
    decreases m,
{
    broadcast use Seq::lemma_flatten_push;

    if m == 0 {
        assert(bodies.take(0) =~= Seq::<Seq<T>>::empty());
        assert(bodies.take(0).flatten() =~= Seq::<T>::empty());
        assert(0 * c == 0) by (nonlinear_arith);
    } else {
        lemma_flatten_chunks_prefix(bodies, n, c, m - 1);
        lemma_chunk_start_in_range(n, c, m - 1);
        assert(bodies.take(m) =~= bodies.take(m - 1).push(bodies[m - 1]));
        assert(m * c == (m - 1) * c + c) by (nonlinear_arith);
        let prev = bodies.take(m - 1).flatten();
        assert(bodies.take(m).flatten() == prev + bodies[m - 1]);
        assert(prev.len() == (m - 1) * c);
        assert forall|k: int, j: int|
            0 <= k < m && 0 <= j < #[trigger] bodies[k].len() implies bodies.take(
            m,
        ).flatten()[k * c + j] == #[trigger] bodies[k][j] by {
            if k < m - 1 {
                lemma_mul_inequality(k + 1, m - 1, c);
                assert((k + 1) * c == k * c + c) by (nonlinear_arith);
                assert(bodies.take(m - 1).flatten()[k * c + j] == bodies[k][j]);
            } else {
                assert((prev + bodies[m - 1])[(m - 1) * c + j] == bodies[m - 1][j]);
            }
        }
    }
}

/// When every chunk exchange succeeds and the remote side answers each
/// request with exactly one element, the merged result sequence has one
/// element per descriptor, and the element of slot `(k, j)` stands at its
/// descriptor's global index `k * c + j`: the input order is preserved.
pub proof fn lemma_aggregate_preserves_order<T>(bodies: Seq<Seq<JsonRpcResult<T>>>, n: int, c: int)
    requires
        1 <= c,
        1 <= n,
        bodies.len() == num_chunks(n, c),
        forall|k: int| 0 <= k < bodies.len() ==> (#[trigger] bodies[k]).len() == chunk_len(n, c, k),
    ensures
        bodies.flatten().len() == n,
        forall|k: int, j: int|
            0 <= k < bodies.len() && 0 <= j < #[trigger] bodies[k].len() ==> bodies.flatten()[k * c
                + j] == #[trigger] bodies[k][j],
{
    lemma_flatten_chunks_prefix(bodies, n, c, bodies.len() as int);
    assert(bodies.take(bodies.len() as int) =~= bodies);
    let nc = num_chunks(n, c);
    lemma_fundamental_div_mod(n + c - 1, c);
    assert(nc * c == c * nc) by (nonlinear_arith);
    assert(nc * c >= n);
}

/// The planner partitions the input: `ceil(n/c)` chunks whose
/// concatenation, taken in chunk order (not completion order), is exactly
/// the original descriptor sequence.
pub proof fn lemma_plan_partitions(dv: Seq<DescriptorView>, c: int)
    requires
        1 <= c,
        1 <= dv.len(),
    ensures
        spec_plan(dv, c).len() == num_chunks(dv.len() as int, c),
        spec_plan(dv, c).map_values(|ch: ChunkView| ch.items).flatten() == dv,
{
    let n = dv.len() as int;
    let bodies = spec_plan(dv, c).map_values(|ch: ChunkView| ch.items);
    assert(bodies.len() == num_chunks(n, c));
    assert forall|k: int| 0 <= k < bodies.len() implies (#[trigger] bodies[k]).len() == chunk_len(
        n,
        c,
        k,
    ) by {
        lemma_chunk_start_in_range(n, c, k);
    }
    lemma_flatten_chunks_prefix(bodies, n, c, bodies.len() as int);
    assert(bodies.take(bodies.len() as int) =~= bodies);
    lemma_fundamental_div_mod(n + c - 1, c);
    assert(num_chunks(n, c) * c == c * num_chunks(n, c)) by (nonlinear_arith);
    assert(bodies.flatten().len() == n);
    assert forall|g: int| 0 <= g < n implies bodies.flatten()[g] == dv[g] by {
        let k = g / c;
        let j = g % c;
        lemma_fundamental_div_mod(g, c);
        assert(g == c * (g / c) + g % c);
        assert(c * k == k * c) by (nonlinear_arith);
        lemma_num_chunks_lower(n, c, k);
        assert(bodies[k].len() == chunk_len(n, c, k));
        assert(bodies.flatten()[k * c + j] == bodies[k][j]);
        assert(bodies[k][j] == dv.subrange(k * c, k * c + chunk_len(n, c, k))[j]);
    }
    assert(bodies.flatten() =~= dv);
}

/// Planning is idempotent: the chunk layout is a pure function of the
/// descriptor sequence and the chunk size, so planning the same input
/// twice yields identical chunk boundaries.
pub proof fn lemma_plan_idempotent(
    dv: Seq<DescriptorView>,
    c: int,
    r1: Seq<ChunkView>,
    r2: Seq<ChunkView>,
)
    requires
        r1 == spec_plan(dv, c),
        r2 == spec_plan(dv, c),
    ensures
        r1 == r2,
{
}

/// Correlation ids are injective within one chunked call: two distinct
/// envelope slots, in the same chunk or across chunks, never share an id.
pub proof fn lemma_correlation_ids_injective(
    e: Seq<Vec<JsonRpcRequest>>,
    dv: Seq<DescriptorView>,
    c: int,
    k1: int,
    j1: int,
    k2: int,
    j2: int,
)
    requires
        1 <= c,
        dv.len() <= u64::MAX,
        chunked_envelopes_ok(e, dv, c),
        0 <= k1 < e.len(),
        0 <= j1 < e[k1]@.len(),
        0 <= k2 < e.len(),
        0 <= j2 < e[k2]@.len(),
        e[k1]@[j1].id == e[k2]@[j2].id,
    ensures
        k1 == k2 && j1 == j2,
{
    let n = dv.len() as int;
    lemma_chunk_start_in_range(n, c, k1);
    lemma_chunk_start_in_range(n, c, k2);
    assert(e[k1]@[j1].id == JsonRpcId::Integer((k1 * c + j1 + 1) as u64));
    assert(e[k2]@[j2].id == JsonRpcId::Integer((k2 * c + j2 + 1) as u64));
    assert(k1 * c + j1 == k2 * c + j2);
    lemma_fundamental_div_mod_converse(k1 * c + j1, c, k1, j1);
    lemma_fundamental_div_mod_converse(k2 * c + j2, c, k2, j2);
}

} // verus!
