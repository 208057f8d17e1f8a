//! Deterministic founding-era backstory blurbs for generated countries,
//! drawn from a small template pool so the world reads as though it has
//! history behind it.

use vstd::prelude::*;
use crate::rng::{SimRng, RngState, stream_value, xoshiro_advance};
use crate::text::{replace, replace_all};

verus! {

/// Number of template pools (founding events, old conflicts, mergers).
pub const POOL_COUNT: usize = 3;
/// Number of templates in each pool.
pub const TEMPLATES_PER_POOL: usize = 5;

/// The placeholder each template starts with, replaced by the country name.
pub open spec fn name_placeholder() -> Seq<char> {
    "{name}"@
}

/// Template `index` of pool `pool` (pool 0: founding events, 1: old
/// conflicts, 2: mergers).
pub open spec fn template_view(pool: int, index: int) -> Seq<char> {
    if pool == 0 && index == 0 { "{name} was founded by colonists seeking independence from the old planetary charters."@ } else
    if pool == 0 && index == 1 { "{name} traces its founding to a mining consortium that outgrew its charter and declared statehood."@ } else
    if pool == 0 && index == 2 { "{name} began as a refugee settlement that grew into a recognized nation."@ } else
    if pool == 0 && index == 3 { "{name} was chartered by a coalition of trade guilds looking for a tax free port."@ } else
    if pool == 0 && index == 4 { "{name} formed when a research colony petitioned for full sovereignty."@ } else
    if pool == 1 && index == 0 { "{name} spent its first decades locked in a border dispute with a neighboring colony."@ } else
    if pool == 1 && index == 1 { "{name} emerged from a bloody secession war that split an older, larger state in two."@ } else
    if pool == 1 && index == 2 { "{name} won its independence only after a prolonged blockade by a rival power."@ } else
    if pool == 1 && index == 3 { "{name} was forged in the aftermath of a failed rebellion that toppled its predecessor government."@ } else
    if pool == 1 && index == 4 { "{name} still bears the scars of a resource war fought over its home planet's mining rights."@ } else
    if pool == 2 && index == 0 { "{name} was formed when several rival settlements agreed to a single unified charter."@ } else
    if pool == 2 && index == 1 { "{name} came together as a merger of three struggling colonies pooling their resources."@ } else
    if pool == 2 && index == 2 { "{name} unified an old patchwork of independent city states under one government."@ } else
    if pool == 2 && index == 3 { "{name} is the product of a peaceful merger between two exhausted wartime rivals."@ } else
    if pool == 2 && index == 4 { "{name} consolidated a loose alliance of trading posts into a single sovereign state."@ } else
    { Seq::empty() }
}

/// The text of template `index` of pool `pool`.
pub fn template_text(pool: usize, index: usize) -> (t: &'static str)
    requires
        pool < POOL_COUNT,
        index < TEMPLATES_PER_POOL,
    ensures
        t@ == template_view(pool as int, index as int),
{
    match (pool, index) {
        (0, 0) => "{name} was founded by colonists seeking independence from the old planetary charters.",
        (0, 1) => "{name} traces its founding to a mining consortium that outgrew its charter and declared statehood.",
        (0, 2) => "{name} began as a refugee settlement that grew into a recognized nation.",
        (0, 3) => "{name} was chartered by a coalition of trade guilds looking for a tax free port.",
        (0, 4) => "{name} formed when a research colony petitioned for full sovereignty.",
        (1, 0) => "{name} spent its first decades locked in a border dispute with a neighboring colony.",
        (1, 1) => "{name} emerged from a bloody secession war that split an older, larger state in two.",
        (1, 2) => "{name} won its independence only after a prolonged blockade by a rival power.",
        (1, 3) => "{name} was forged in the aftermath of a failed rebellion that toppled its predecessor government.",
        (1, 4) => "{name} still bears the scars of a resource war fought over its home planet's mining rights.",
        (2, 0) => "{name} was formed when several rival settlements agreed to a single unified charter.",
        (2, 1) => "{name} came together as a merger of three struggling colonies pooling their resources.",
        (2, 2) => "{name} unified an old patchwork of independent city states under one government.",
        (2, 3) => "{name} is the product of a peaceful merger between two exhausted wartime rivals.",
        (2, 4) => "{name} consolidated a loose alliance of trading posts into a single sovereign state.",
        _ => "{name} consolidated a loose alliance of trading posts into a single sovereign state.",
    }
}

/// Every template pool, each holding its templates in order.
pub fn template_pools() -> (pools: Vec<Vec<&'static str>>)
    ensures
        pools@.len() == POOL_COUNT,
        forall|p: int| 0 <= p < POOL_COUNT ==> #[trigger] pools@[p]@.len() == TEMPLATES_PER_POOL,
        forall|p: int, i: int| 0 <= p < POOL_COUNT && 0 <= i < TEMPLATES_PER_POOL ==>
            (#[trigger] pools@[p]@[i])@ == template_view(p, i),
{
    let mut pools: Vec<Vec<&'static str>> = Vec::new();
    let mut p: usize = 0;
    while p < POOL_COUNT
        invariant
            p <= POOL_COUNT,
            pools@.len() == p,
            forall|q: int| 0 <= q < p ==> #[trigger] pools@[q]@.len() == TEMPLATES_PER_POOL,
            forall|q: int, i: int| 0 <= q < p && 0 <= i < TEMPLATES_PER_POOL ==>
                (#[trigger] pools@[q]@[i])@ == template_view(q, i),
        decreases POOL_COUNT - p,
    {
        let mut pool: Vec<&'static str> = Vec::new();
        let mut i: usize = 0;
        while i < TEMPLATES_PER_POOL
            invariant
                p < POOL_COUNT,
                i <= TEMPLATES_PER_POOL,
                pool@.len() == i,
                forall|j: int| 0 <= j < i ==> (#[trigger] pool@[j])@ == template_view(p as int, j),
            decreases TEMPLATES_PER_POOL - i,
        {
            pool.push(template_text(p, i));
            i += 1;
        }
        pools.push(pool);
        p += 1;
    }
    pools
}

/// The backstory a stream in state `s` draws for `country_name`: a uniform
/// pool, then a uniform template in it, with the placeholder replaced.
pub open spec fn backstory_from_stream(s: RngState, country_name: Seq<char>) -> Seq<char> {
    replace_all(
        template_view((stream_value(s, 0) % 3) as int, (stream_value(s, 1) % 5) as int),
        name_placeholder(),
        country_name,
    )
}

/// A short, deterministic founding-era backstory for `country_name`,
/// consuming exactly two draws from `rng`.
pub fn generate_backstory(rng: &mut SimRng, country_name: &str) -> (blurb: String)
    ensures
        blurb@ == backstory_from_stream(old(rng)@, country_name@),
        final(rng)@ == xoshiro_advance(old(rng)@, 2),
{
    proof {
        reveal_with_fuel(xoshiro_advance, 3);
    }
    let pool = rng.pick_index(POOL_COUNT);
    let index = rng.pick_index(TEMPLATES_PER_POOL);
    let template = template_text(pool, index);
    let placeholder = "{name}";
    proof {
        reveal_strlit("{name}");
    }
    replace(template, placeholder, country_name)
}

/// Every template starts with the name placeholder.
pub proof fn lemma_templates_start_with_placeholder(pool: int, index: int)
    requires
        0 <= pool < 3,
        0 <= index < 5,
    ensures
        template_view(pool, index).len() >= 6,
        template_view(pool, index).subrange(0, 6) == name_placeholder(),
{
    reveal_strlit("{name}");
    reveal_strlit("{name} was founded by colonists seeking independence from the old planetary charters.");
    reveal_strlit("{name} traces its founding to a mining consortium that outgrew its charter and declared statehood.");
    reveal_strlit("{name} began as a refugee settlement that grew into a recognized nation.");
    reveal_strlit("{name} was chartered by a coalition of trade guilds looking for a tax free port.");
    reveal_strlit("{name} formed when a research colony petitioned for full sovereignty.");
    reveal_strlit("{name} spent its first decades locked in a border dispute with a neighboring colony.");
    reveal_strlit("{name} emerged from a bloody secession war that split an older, larger state in two.");
    reveal_strlit("{name} won its independence only after a prolonged blockade by a rival power.");
    reveal_strlit("{name} was forged in the aftermath of a failed rebellion that toppled its predecessor government.");
    reveal_strlit("{name} still bears the scars of a resource war fought over its home planet's mining rights.");
    reveal_strlit("{name} was formed when several rival settlements agreed to a single unified charter.");
    reveal_strlit("{name} came together as a merger of three struggling colonies pooling their resources.");
    reveal_strlit("{name} unified an old patchwork of independent city states under one government.");
    reveal_strlit("{name} is the product of a peaceful merger between two exhausted wartime rivals.");
    reveal_strlit("{name} consolidated a loose alliance of trading posts into a single sovereign state.");
    assert(template_view(pool, index).subrange(0, 6) =~= name_placeholder());
}

/// Every backstory begins with the country's own name.
pub proof fn lemma_backstory_starts_with_country_name(s: RngState, country_name: Seq<char>)
    ensures
        backstory_from_stream(s, country_name).len() >= country_name.len(),
        backstory_from_stream(s, country_name).subrange(0, country_name.len() as int) == country_name,
{
    let pool = (stream_value(s, 0) % 3) as int;
    let index = (stream_value(s, 1) % 5) as int;
    lemma_templates_start_with_placeholder(pool, index);
    reveal_strlit("{name}");
    let t = template_view(pool, index);
    let rest = replace_all(t.subrange(6, t.len() as int), name_placeholder(), country_name);
    assert(backstory_from_stream(s, country_name) == country_name + rest);
    assert((country_name + rest).subrange(0, country_name.len() as int) =~= country_name);
}

/// Player-facing copy rule: no template contains an em dash or a semicolon.
pub proof fn lemma_templates_pass_copy_rule(pool: int, index: int)
    requires
        0 <= pool < 3,
        0 <= index < 5,
    ensures
        forall|k: int| 0 <= k < template_view(pool, index).len() ==>
            #[trigger] template_view(pool, index)[k] != '\u{2014}' && template_view(pool, index)[k] != ';',
{
    reveal_strlit("{name} was founded by colonists seeking independence from the old planetary charters.");
    reveal_strlit("{name} traces its founding to a mining consortium that outgrew its charter and declared statehood.");
    reveal_strlit("{name} began as a refugee settlement that grew into a recognized nation.");
    reveal_strlit("{name} was chartered by a coalition of trade guilds looking for a tax free port.");
    reveal_strlit("{name} formed when a research colony petitioned for full sovereignty.");
    reveal_strlit("{name} spent its first decades locked in a border dispute with a neighboring colony.");
    reveal_strlit("{name} emerged from a bloody secession war that split an older, larger state in two.");
    reveal_strlit("{name} won its independence only after a prolonged blockade by a rival power.");
    reveal_strlit("{name} was forged in the aftermath of a failed rebellion that toppled its predecessor government.");
    reveal_strlit("{name} still bears the scars of a resource war fought over its home planet's mining rights.");
    reveal_strlit("{name} was formed when several rival settlements agreed to a single unified charter.");
    reveal_strlit("{name} came together as a merger of three struggling colonies pooling their resources.");
    reveal_strlit("{name} unified an old patchwork of independent city states under one government.");
    reveal_strlit("{name} is the product of a peaceful merger between two exhausted wartime rivals.");
    reveal_strlit("{name} consolidated a loose alliance of trading posts into a single sovereign state.");
}

} // verus!
