//! Features unlocked by level progression, kept as a compact bit set.

use vstd::prelude::*;

verus! {

/// Feature unlocked by the built-in level progression.
#[derive(Clone, Copy, Debug, PartialEq, Eq, Structural)]
pub enum Feature {
    Minimum,
    Colors,
    Music,
    Preview,
    Rotation,
    ForwardBackward,
    Flashlight,
    SpinUpgrade,
    EvilBlocks,
    Shifted,
}

/// Position of a feature's bit in [`FeatureFlags`].
pub open spec fn feature_bit(f: Feature) -> u16 {
    match f {
        Feature::Minimum => 0,
        Feature::Colors => 1,
        Feature::Music => 2,
        Feature::Preview => 3,
        Feature::Rotation => 4,
        Feature::ForwardBackward => 5,
        Feature::Flashlight => 6,
        Feature::SpinUpgrade => 7,
        Feature::EvilBlocks => 8,
        Feature::Shifted => 9,
    }
}

fn bit_of(f: Feature) -> (b: u16)
    ensures
        b == feature_bit(f),
        b < 10,
{
    match f {
        Feature::Minimum => 0,
        Feature::Colors => 1,
        Feature::Music => 2,
        Feature::Preview => 3,
        Feature::Rotation => 4,
        Feature::ForwardBackward => 5,
        Feature::Flashlight => 6,
        Feature::SpinUpgrade => 7,
        Feature::EvilBlocks => 8,
        Feature::Shifted => 9,
    }
}

proof fn lemma_feature_bit_injective(f: Feature, g: Feature)
    ensures
        feature_bit(f) == feature_bit(g) <==> f == g,
{
}

/// Compact set of enabled [`Feature`] values.
#[derive(Clone, Copy, Debug, PartialEq, Eq, Structural)]
pub struct FeatureFlags(u16);

/// Whether bit `b` is set in `bits`.
pub open spec fn bit_set(bits: u16, b: u16) -> bool {
    bits & (1u16 << b) != 0
}

proof fn lemma_or_bit(a: u16, b: u16, c: u16)
    requires
        b < 16,
        c < 16,
    ensures
        bit_set(a | (1u16 << b), c) <==> (bit_set(a, c) || b == c),
{
    assert((a | (1u16 << b)) & (1u16 << c) != 0 <==> (a & (1u16 << c) != 0 || b == c))
        by (bit_vector)
        requires
            b < 16,
            c < 16,
    ;
}

proof fn lemma_clear_bit(a: u16, b: u16, c: u16)
    requires
        b < 16,
        c < 16,
    ensures
        bit_set(a & !(1u16 << b), c) <==> (bit_set(a, c) && b != c),
{
    assert((a & !(1u16 << b)) & (1u16 << c) != 0 <==> (a & (1u16 << c) != 0 && b != c))
        by (bit_vector)
        requires
            b < 16,
            c < 16,
    ;
}

proof fn lemma_single_bit(b: u16, c: u16)
    requires
        b < 16,
        c < 16,
    ensures
        bit_set(1u16 << b, c) <==> b == c,
{
    assert((1u16 << b) & (1u16 << c) != 0 <==> b == c) by (bit_vector)
        requires
            b < 16,
            c < 16,
    ;
}

impl View for FeatureFlags {
    type V = Set<Feature>;

    /// The set of enabled features.
    closed spec fn view(&self) -> Set<Feature> {
        Set::new(|f: Feature| bit_set(self.0, feature_bit(f)))
    }
}

impl FeatureFlags {
    /// The flags with `f` enabled as well.
    pub closed spec fn spec_with(self, f: Feature) -> FeatureFlags {
        FeatureFlags(self.0 | (1u16 << feature_bit(f)))
    }

    /// The flags with `f` disabled.
    pub closed spec fn spec_without(self, f: Feature) -> FeatureFlags {
        FeatureFlags(self.0 & !(1u16 << feature_bit(f)))
    }

    /// The flags that `new` creates.
    pub closed spec fn spec_new() -> FeatureFlags {
        FeatureFlags(1u16 << feature_bit(Feature::Minimum))
    }

    /// What `spec_with` does to the set of enabled features.
    pub proof fn lemma_with(self, f: Feature)
        ensures
            self.spec_with(f)@ == self@.insert(f),
    {
        assert forall|g: Feature| self.spec_with(f)@.contains(g) == self@.insert(f).contains(g) by {
            lemma_or_bit(self.0, feature_bit(f), feature_bit(g));
            lemma_feature_bit_injective(f, g);
        }
        assert(self.spec_with(f)@ =~= self@.insert(f));
    }

    /// What `spec_without` does to the set of enabled features.
    pub proof fn lemma_without(self, f: Feature)
        ensures
            self.spec_without(f)@ == self@.remove(f),
    {
        assert forall|g: Feature| self.spec_without(f)@.contains(g) == self@.remove(f).contains(g) by {
            lemma_clear_bit(self.0, feature_bit(f), feature_bit(g));
            lemma_feature_bit_injective(f, g);
        }
        assert(self.spec_without(f)@ =~= self@.remove(f));
    }

    /// Creates the default feature set with [`Feature::Minimum`] enabled.
    pub fn new() -> (flags: Self)
        ensures
            flags == Self::spec_new(),
            flags@ == set![Feature::Minimum],
    {
        let flags = FeatureFlags(1u16 << bit_of(Feature::Minimum));
        proof {
            assert forall|g: Feature| flags@.contains(g) == set![Feature::Minimum].contains(g) by {
                lemma_single_bit(0, feature_bit(g));
                lemma_feature_bit_injective(Feature::Minimum, g);
            }
            assert(flags@ =~= set![Feature::Minimum]);
        }
        flags
    }

    /// Returns true when `feature` is enabled.
    pub fn contains(self, feature: Feature) -> (b: bool)
        ensures
            b == self@.contains(feature),
    {
        let bit = bit_of(feature);
        (self.0 & (1u16 << bit)) != 0
    }

    /// Enables `feature`.
    pub fn insert(&mut self, feature: Feature)
        ensures
            *final(self) == old(self).spec_with(feature),
            final(self)@ == old(self)@.insert(feature),
    {
        proof {
            old(self).lemma_with(feature);
        }
        let bit = bit_of(feature);
        self.0 = self.0 | (1u16 << bit);
    }

    /// Disables `feature`.
    pub fn remove(&mut self, feature: Feature)
        ensures
            *final(self) == old(self).spec_without(feature),
            final(self)@ == old(self)@.remove(feature),
    {
        proof {
            old(self).lemma_without(feature);
        }
        let bit = bit_of(feature);
        self.0 = self.0 & !(1u16 << bit);
    }
}

/// Enabling a feature that was off and then disabling it gives back the same flags.
pub proof fn lemma_insert_remove_absent(flags: FeatureFlags, f: Feature)
    requires
        !flags@.contains(f),
    ensures
        flags.spec_with(f).spec_without(f) == flags,
{
    let b = feature_bit(f);
    let a = flags.0;
    assert(!bit_set(a, b));
    assert(a & (1u16 << b) == 0 ==> (a | (1u16 << b)) & !(1u16 << b) == a) by (bit_vector);
}

/// Enabling and then disabling a feature leaves it disabled and the others as they were;
/// enabling twice is the same as enabling once.
pub proof fn lemma_insert_remove(flags: FeatureFlags, f: Feature)
    ensures
        flags.spec_with(f).spec_without(f)@ == flags@.remove(f),
        flags.spec_with(f).spec_with(f) == flags.spec_with(f),
{
    flags.lemma_with(f);
    flags.spec_with(f).lemma_without(f);
    assert(flags@.insert(f).remove(f) =~= flags@.remove(f));
    let b = feature_bit(f);
    let a = flags.0;
    assert((a | (1u16 << b)) | (1u16 << b) == a | (1u16 << b)) by (bit_vector);
}

impl Default for FeatureFlags {
    /// The same as [`FeatureFlags::new`].
    fn default() -> (flags: Self)
        ensures
            flags == Self::spec_new(),
            flags@ == set![Feature::Minimum],
    {
        Self::new()
    }
}

} // verus!
