//! How the free width of a line is spread over its whitespace.

use vstd::prelude::*;

verus! {

/// The extra width that each whitespace run of a line gets on top of its
/// own width: `extra` pixels for every run, and one pixel more for each of
/// the first `remainder` runs.
///
/// Runs take their share in the order in which they stand on the line.
#[derive(Clone, Copy, Debug, PartialEq, Eq, Structural)]
pub struct SpaceConfig {
    pub extra: u32,
    pub remainder: u32,
}

impl SpaceConfig {
    /// No run gets anything extra.
    pub open spec fn spec_uniform() -> SpaceConfig {
        SpaceConfig { extra: 0, remainder: 0 }
    }

    /// The extra width of the next run, at most `u32::MAX`.
    pub open spec fn bonus(self) -> u32 {
        if self.remainder > 0 && self.extra < u32::MAX {
            (self.extra + 1) as u32
        } else {
            self.extra
        }
    }

    /// The configuration for the runs after the next one.
    pub open spec fn rest(self) -> SpaceConfig {
        if self.remainder > 0 {
            SpaceConfig { extra: self.extra, remainder: (self.remainder - 1) as u32 }
        } else {
            self
        }
    }

    /// The extra width that the first `runs` runs get together.
    pub open spec fn total(self, runs: nat) -> nat
        decreases runs,
    {
        if runs == 0 {
            0
        } else {
            self.bonus() as nat + self.rest().total((runs - 1) as nat)
        }
    }

    pub fn new(extra: u32, remainder: u32) -> (r: Self)
        ensures
            r == (SpaceConfig { extra, remainder }),
    {
        SpaceConfig { extra, remainder }
    }

    /// No run gets anything extra.
    pub fn uniform() -> (r: Self)
        ensures
            r == Self::spec_uniform(),
    {
        SpaceConfig { extra: 0, remainder: 0 }
    }

    /// Hands out the extra width of the next run.
    pub fn consume(&mut self) -> (bonus: u32)
        ensures
            bonus == old(self).bonus(),
            *final(self) == old(self).rest(),
    {
        if self.remainder > 0 {
            self.remainder = self.remainder - 1;
            if self.extra < u32::MAX {
                self.extra + 1
            } else {
                self.extra
            }
        } else {
            self.extra
        }
    }
}

/// Spreading `deficit` pixels over `runs` runs gives every run
/// `deficit / runs` pixels and each of the first `deficit % runs` runs one
/// more, and that uses up the deficit exactly.
pub proof fn lemma_justification_exact(deficit: u32, runs: u32)
    requires
        runs > 0,
    ensures
        (SpaceConfig { extra: deficit / runs, remainder: deficit % runs }).total(runs as nat)
            == deficit,
        forall|i: nat|
            i < runs ==> #[trigger] nth_bonus(
                SpaceConfig { extra: deficit / runs, remainder: deficit % runs },
                i,
            ) == deficit / runs + if i < deficit % runs {
                1int
            } else {
                0int
            },
{
    let config = SpaceConfig { extra: deficit / runs, remainder: deficit % runs };
    assert(deficit == runs * (deficit / runs) + deficit % runs) by (nonlinear_arith)
        requires
            runs > 0,
    ;
    assert(deficit % runs < runs);
    assert(config.extra < u32::MAX || config.remainder == 0) by (nonlinear_arith)
        requires
            runs > 0,
            config.extra == deficit / runs,
            config.remainder == deficit % runs,
            deficit <= u32::MAX,
    ;
    lemma_total(config, runs as nat);
    assert((deficit / runs) * runs == runs * (deficit / runs)) by (nonlinear_arith);
    assert forall|i: nat| i < runs implies #[trigger] nth_bonus(config, i) == deficit / runs
        + if i < deficit % runs {
        1int
    } else {
        0int
    } by {
        lemma_nth_bonus(config, i);
    }
}

/// The extra width of run number `index`, counted from zero.
pub open spec fn nth_bonus(config: SpaceConfig, index: nat) -> u32
    decreases index,
{
    if index == 0 {
        config.bonus()
    } else {
        nth_bonus(config.rest(), (index - 1) as nat)
    }
}

/// Unless a share would pass `u32::MAX`, run number `index` gets `extra`
/// pixels, and one more if it is among the first `remainder` runs.
pub proof fn lemma_nth_bonus(config: SpaceConfig, index: nat)
    requires
        config.extra < u32::MAX || config.remainder == 0,
    ensures
        nth_bonus(config, index) == config.extra + if index < config.remainder {
            1int
        } else {
            0int
        },
    decreases index,
{
    if index > 0 {
        lemma_nth_bonus(config.rest(), (index - 1) as nat);
    }
}

/// Unless a share would pass `u32::MAX`, the first `runs` runs get `extra`
/// pixels each and one pixel more for each that is among the first
/// `remainder`.
pub proof fn lemma_total(config: SpaceConfig, runs: nat)
    requires
        config.extra < u32::MAX || config.remainder == 0,
    ensures
        config.total(runs) == config.extra * runs + if runs < config.remainder {
            runs
        } else {
            config.remainder as nat
        },
    decreases runs,
{
    if runs > 0 {
        let before = (runs - 1) as nat;
        lemma_total(config.rest(), before);
        assert(config.rest().extra == config.extra);
        assert(config.extra * runs == config.extra * before + config.extra) by (nonlinear_arith)
            requires
                runs == before + 1,
        ;
    } else {
        assert(config.extra * runs == 0) by (nonlinear_arith)
            requires
                runs == 0,
        ;
    }
}

} // verus!
