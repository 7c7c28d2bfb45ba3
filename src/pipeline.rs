use vstd::prelude::*;

verus! {

/// The stages of serving one query. A fresh cache hit goes straight to
/// shortening; anything else ensures a token, fetches, caches, then shortens.
#[derive(Debug, Clone, Copy, PartialEq, Eq, Structural)]
pub enum Stage {
    CheckCache,
    EnsureToken,
    UpstreamFetch,
    Cache,
    Shorten,
    Return,
}

/// The stage that follows `s`; `fresh_hit` says whether the cache lookup found
/// a page that is still fresh, and matters only after `CheckCache`.
pub open spec fn next_stage_of(s: Stage, fresh_hit: bool) -> Stage {
    match s {
        Stage::CheckCache => if fresh_hit {
            Stage::Shorten
        } else {
            Stage::EnsureToken
        },
        Stage::EnsureToken => Stage::UpstreamFetch,
        Stage::UpstreamFetch => Stage::Cache,
        Stage::Cache => Stage::Shorten,
        Stage::Shorten => Stage::Return,
        Stage::Return => Stage::Return,
    }
}

/// The stage after `s`.
pub fn next_stage(s: Stage, fresh_hit: bool) -> (r: Stage)
    ensures
        r == next_stage_of(s, fresh_hit),
{
    match s {
        Stage::CheckCache => if fresh_hit {
            Stage::Shorten
        } else {
            Stage::EnsureToken
        },
        Stage::EnsureToken => Stage::UpstreamFetch,
        Stage::UpstreamFetch => Stage::Cache,
        Stage::Cache => Stage::Shorten,
        Stage::Shorten => Stage::Return,
        Stage::Return => Stage::Return,
    }
}

/// The stage reached from `s` after `n` steps.
pub open spec fn stage_after(s: Stage, fresh_hit: bool, n: nat) -> Stage
    decreases n,
{
    if n == 0 {
        s
    } else {
        stage_after(next_stage_of(s, fresh_hit), fresh_hit, (n - 1) as nat)
    }
}

/// A fresh hit is shortened and returned without touching the token or the
/// upstream; a miss or a stale hit passes through every stage, in order, and
/// every query is answered within five steps.
pub proof fn lemma_request_paths()
    ensures
        stage_after(Stage::CheckCache, true, 1) == Stage::Shorten,
        stage_after(Stage::CheckCache, true, 2) == Stage::Return,
        stage_after(Stage::CheckCache, false, 1) == Stage::EnsureToken,
        stage_after(Stage::CheckCache, false, 2) == Stage::UpstreamFetch,
        stage_after(Stage::CheckCache, false, 3) == Stage::Cache,
        stage_after(Stage::CheckCache, false, 4) == Stage::Shorten,
        stage_after(Stage::CheckCache, false, 5) == Stage::Return,
        forall|h: bool| #[trigger] stage_after(Stage::CheckCache, h, 5) == Stage::Return,
{
    reveal_with_fuel(stage_after, 6);
}

} // verus!
