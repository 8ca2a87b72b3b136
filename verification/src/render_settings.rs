//! What the renderer is asked to draw, and the timings it reports back.
use vstd::prelude::*;

verus! {

/// What the shader draws for each pixel.
#[derive(Debug, Clone, Copy, PartialEq, Eq, Structural)]
pub enum RenderType {
    TraversalSteps,
    HitNormals,
    HitPosition,
    Albedo,
}

impl RenderType {
    /// The position of the render type in the list of render types.
    pub open spec fn index_spec(self) -> nat {
        match self {
            RenderType::TraversalSteps => 0,
            RenderType::HitNormals => 1,
            RenderType::HitPosition => 2,
            RenderType::Albedo => 3,
        }
    }

    /// Every render type, in order.
    pub fn iter() -> (r: [RenderType; 4])
        ensures
            r@ == seq![RenderType::TraversalSteps, RenderType::HitNormals, RenderType::HitPosition, RenderType::Albedo],
    {
        let r = [RenderType::TraversalSteps, RenderType::HitNormals, RenderType::HitPosition, RenderType::Albedo];
        assert(r@ =~= seq![RenderType::TraversalSteps, RenderType::HitNormals, RenderType::HitPosition, RenderType::Albedo]);
        r
    }

    /// The shader flags that select this render type: the bit at its position.
    pub fn shader_flags(self) -> (r: u8)
        ensures
            r == 1u8 << self.index_spec() as u8,
    {
        let i: u8 = match self {
            RenderType::TraversalSteps => 0,
            RenderType::HitNormals => 1,
            RenderType::HitPosition => 2,
            RenderType::Albedo => 3,
        };
        1u8 << i
    }
}

/// Each render type has its own flag bit, the bit of its place in the list of render
/// types: 1, 2, 4 and 8 in order.
pub proof fn lemma_shader_flags_distinct(a: RenderType, b: RenderType)
    ensures
        a != b ==> 1u8 << a.index_spec() as u8 != 1u8 << b.index_spec() as u8,
        1u8 << RenderType::TraversalSteps.index_spec() as u8 == 1u8,
        1u8 << RenderType::HitNormals.index_spec() as u8 == 2u8,
        1u8 << RenderType::HitPosition.index_spec() as u8 == 4u8,
        1u8 << RenderType::Albedo.index_spec() as u8 == 8u8,
{
    assert(1u8 << 0u8 == 1u8 && 1u8 << 1u8 == 2u8 && 1u8 << 2u8 == 4u8 && 1u8 << 3u8 == 8u8) by (bit_vector);
}

/// The values of query results read with their availability: every other entry,
/// from the first.
pub open spec fn result_values(results: Seq<u64>) -> Seq<u64> {
    Seq::new(((results.len() + 1) / 2) as nat, |k: int| results[2 * k])
}

/// Every query is available: no availability entry (the odd ones) is 0.
pub open spec fn all_available(results: Seq<u64>) -> bool {
    forall|i: int| 0 <= i < results.len() && i % 2 == 1 ==> #[trigger] results[i] != 0
}

/// Every query must be available: one availability entry of 0, wherever it stands,
/// withholds the timestamps; the values are the entries before their availabilities,
/// one for each query.
pub proof fn lemma_timestamps_need_every_query(results: Seq<u64>)
    ensures
        all_available(results) <==> !exists|i: int| 0 <= i < results.len() && i % 2 == 1 && #[trigger] results[i] == 0,
        result_values(results).len() == (results.len() + 1) / 2,
        forall|k: int| 0 <= k < result_values(results).len() ==> #[trigger] result_values(results)[k] == results[2 * k],
{
}

/// The timestamps of query results read with their availability (value, then
/// availability, for each query): the values when every query is available,
/// `None` otherwise.
pub fn available_timestamps(results: &[u64]) -> (r: Option<Vec<u64>>)
    ensures
        r is Some <==> all_available(results@),
        r is Some <==> forall|i: int| 0 <= i < results@.len() && i % 2 == 1 ==> #[trigger] results@[i] != 0,
        r matches Some(v) ==> v@.len() == (results@.len() + 1) / 2
            && forall|k: int| 0 <= k < v@.len() ==> #[trigger] v@[k] == results@[2 * k],
        r matches Some(v) ==> v@ == result_values(results@),
{
    let mut i: usize = 0;
    while i < results.len()
        invariant
            i <= results@.len(),
            forall|j: int| 0 <= j < i && j % 2 == 1 ==> #[trigger] results@[j] != 0,
        decreases results@.len() - i,
    {
        if i % 2 == 1 && results[i] == 0 {
            return None;
        }
        i = i + 1;
    }
    let mut values: Vec<u64> = Vec::new();
    let mut i: usize = 0;
    while i < results.len()
        invariant
            i <= results@.len(),
            values@ == result_values(results@.subrange(0, i as int)),
        decreases results@.len() - i,
    {
        if i % 2 == 0 {
            values.push(results[i]);
        }
        i = i + 1;
        assert(values@ =~= result_values(results@.subrange(0, i as int)));
    }
    assert(results@.subrange(0, results@.len() as int) =~= results@);
    Some(values)
}

} // verus!
