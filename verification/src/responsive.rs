//! Deterministic responsive value resolution and device preview profiles.
use vstd::prelude::*;
use vstd::string::StringExecFns;

use crate::ids::{DeviceProfileId, Id, NodeId, ResponsiveVariantId, lemma_utf8_len_bounds, valid_identity};
use crate::model::{
    DesignNode, InputEnvironment, LayoutProperties, Length, Paint, PropertyValue, ResponsiveNodeOverride,
    ResponsiveVariant, STUDIO_DESIGN_SCHEMA_VERSION, StudioDesign, StyleProperties,
};
use crate::ordered_map::{MapKey, OrderedMap};
use crate::text::chars_before;

verus! {

/// A typed base value with sparse breakpoint overrides.
#[derive(Debug, PartialEq)]
pub struct ResponsiveValue<T> {
    pub base: T,
    pub overrides: OrderedMap<ResponsiveVariantId, T>,
}

/// The source of an inspector value.
#[derive(Clone, Debug, PartialEq, Eq)]
pub enum BreakpointProvenance {
    Base,
    Breakpoint(ResponsiveVariantId),
}

impl BreakpointProvenance {
    /// A copy of this provenance.
    pub fn copy(&self) -> (r: Self)
        ensures
            r == *self,
    {
        match self {
            BreakpointProvenance::Base => BreakpointProvenance::Base,
            BreakpointProvenance::Breakpoint(id) => BreakpointProvenance::Breakpoint(id.copy()),
        }
    }
}

/// A value paired with its source provenance.
#[derive(Clone, Debug, PartialEq)]
pub struct ResolvedValue<T> {
    pub value: T,
    pub provenance: BreakpointProvenance,
}

/// The value a responsive value resolves to for an optional variant, with
/// the variant it came from (`None` for the base value).
pub open spec fn resolution<T>(v: ResponsiveValue<T>, variant: Option<Seq<char>>) -> (T, Option<Seq<char>>) {
    match variant {
        Some(id) => if v.overrides@.contains_key(id) {
            (v.overrides@[id], Some(id))
        } else {
            (v.base, None)
        },
        None => (v.base, None),
    }
}

impl<T> ResponsiveValue<T> {
    /// Create a value with no breakpoint overrides.
    pub fn new(base: T) -> (r: Self)
        ensures
            r.base == base,
            r.overrides@ == Map::<Seq<char>, T>::empty(),
    {
        ResponsiveValue { base, overrides: OrderedMap::new() }
    }

    /// Set an override and return the previous value, if any.
    pub fn set_override(&mut self, variant: ResponsiveVariantId, value: T) -> (r: Option<T>)
        ensures
            final(self).base == old(self).base,
            final(self).overrides@ == old(self).overrides@.insert(variant@, value),
            match r {
                Some(v) => old(self).overrides@.contains_key(variant@) && v == old(self).overrides@[variant@],
                None => !old(self).overrides@.contains_key(variant@),
            },
    {
        self.overrides.insert(variant, value)
    }

    /// Remove an override and return it, if present.
    pub fn clear_override(&mut self, variant: &ResponsiveVariantId) -> (r: Option<T>)
        ensures
            final(self).base == old(self).base,
            final(self).overrides@ == old(self).overrides@.remove(variant@),
            match r {
                Some(v) => old(self).overrides@.contains_key(variant@) && v == old(self).overrides@[variant@],
                None => !old(self).overrides@.contains_key(variant@),
            },
    {
        self.overrides.remove(variant.as_str())
    }

    /// Resolve a value by the selected variant, falling back to the base.
    pub fn resolve(&self, variant: Option<&ResponsiveVariantId>) -> (r: ResolvedValue<&T>)
        ensures
            *r.value == resolution(*self, match variant {
                Some(id) => Some(id@),
                None => None,
            }).0,
            match resolution(*self, match variant {
                Some(id) => Some(id@),
                None => None,
            }).1 {
                Some(id) => r.provenance matches BreakpointProvenance::Breakpoint(b) && b@ == id,
                None => r.provenance == BreakpointProvenance::Base,
            },
    {
        match variant {
            Some(id) => match self.overrides.get(id.as_str()) {
                Some(value) => ResolvedValue {
                    value,
                    provenance: BreakpointProvenance::Breakpoint(id.copy()),
                },
                None => ResolvedValue { value: &self.base, provenance: BreakpointProvenance::Base },
            },
            None => ResolvedValue { value: &self.base, provenance: BreakpointProvenance::Base },
        }
    }
}

/// An override reads back: after setting `x` for `id`, resolving `id` gives
/// `x` from that breakpoint.
pub proof fn lemma_override_reads_back<T>(before: ResponsiveValue<T>, after: ResponsiveValue<T>, id: Seq<char>, x: T)
    requires
        after.base == before.base,
        after.overrides@ == before.overrides@.insert(id, x),
    ensures
        resolution(after, Some(id)) == (x, Some(id)),
{
}

/// Setting an override leaves the resolution of every other variant, and
/// of no variant, unchanged.
pub proof fn lemma_override_is_local<T>(
    before: ResponsiveValue<T>,
    after: ResponsiveValue<T>,
    id: Seq<char>,
    x: T,
    other: Option<Seq<char>>,
)
    requires
        after.base == before.base,
        after.overrides@ == before.overrides@.insert(id, x),
        other != Some(id),
    ensures
        resolution(after, other) == resolution(before, other),
{
}

/// A cleared override falls back to the base value.
pub proof fn lemma_cleared_override_falls_back<T>(before: ResponsiveValue<T>, after: ResponsiveValue<T>, id: Seq<char>)
    requires
        after.base == before.base,
        after.overrides@ == before.overrides@.remove(id),
    ensures
        resolution(after, Some(id)) == (before.base, None::<Seq<char>>),
{
}

/// Setting and then clearing an override for a variant that had none
/// restores the overrides.
pub proof fn lemma_set_then_clear<T>(m: Map<Seq<char>, T>, id: Seq<char>, x: T)
    requires
        !m.contains_key(id),
    ensures
        m.insert(id, x).remove(id) == m,
{
    assert(m.insert(id, x).remove(id) =~= m);
}

/// Device viewport dimensions in logical pixels.
#[derive(Clone, Copy, Debug, PartialEq, Eq, Structural)]
pub struct Viewport {
    pub width: u32,
    pub height: u32,
}

/// Device cutout or inset dimensions in logical pixels.
#[derive(Clone, Copy, Debug, PartialEq, Eq, Structural)]
pub struct Insets {
    pub top: u32,
    pub right: u32,
    pub bottom: u32,
    pub left: u32,
}

impl Default for Insets {
    fn default() -> (r: Self)
        ensures
            r == (Insets { top: 0, right: 0, bottom: 0, left: 0 }),
    {
        Insets { top: 0, right: 0, bottom: 0, left: 0 }
    }
}

/// Orientation used by a profile preview.
#[derive(Clone, Copy, Debug, PartialEq, Eq, Structural)]
pub enum Orientation {
    Portrait,
    Landscape,
}

/// Input capabilities and focus semantics for a device profile.
#[derive(Clone, Copy, Debug, PartialEq, Eq, Structural)]
pub struct DeviceInput {
    pub pointer: bool,
    pub touch: bool,
    pub keyboard: bool,
    pub remote_focus: bool,
}

/// One preview target, including all metadata that affects responsive layout.
#[derive(Clone, Debug, PartialEq, Eq)]
pub struct DeviceProfile {
    pub schema_version: u16,
    pub id: DeviceProfileId,
    pub name: String,
    pub viewport: Viewport,
    pub orientation: Orientation,
    pub safe_area: Insets,
    /// Pixel ratio is a decimal string to keep persisted values deterministic.
    pub pixel_ratio: String,
    pub input: DeviceInput,
}

/// `a - b`, or zero when `b` exceeds `a`.
pub open spec fn saturating_sub(a: int, b: int) -> int {
    if a >= b {
        a - b
    } else {
        0
    }
}

/// `a + b`, or `u32::MAX` when the sum exceeds it.
pub open spec fn saturating_add(a: int, b: int) -> int {
    if a + b <= u32::MAX {
        a + b
    } else {
        u32::MAX as int
    }
}

/// The content viewport of a profile: its viewport less the safe-area insets.
pub open spec fn content_viewport_of(p: DeviceProfile) -> Viewport {
    Viewport {
        width: saturating_sub(p.viewport.width as int, saturating_add(p.safe_area.left as int, p.safe_area.right as int)) as u32,
        height: saturating_sub(p.viewport.height as int, saturating_add(p.safe_area.top as int, p.safe_area.bottom as int)) as u32,
    }
}

/// The input environment a profile offers: touch without a pointer is touch,
/// any pointer is pointer, and otherwise any.
pub open spec fn input_environment_of(p: DeviceProfile) -> InputEnvironment {
    if p.input.touch && !p.input.pointer {
        InputEnvironment::Touch
    } else if p.input.pointer {
        InputEnvironment::Pointer
    } else {
        InputEnvironment::Any
    }
}

impl DeviceProfile {
    /// Return the effective content viewport after safe-area insets.
    pub fn content_viewport(&self) -> (r: Viewport)
        ensures
            r == content_viewport_of(*self),
    {
        Viewport {
            width: self.viewport.width.saturating_sub(self.safe_area.left.saturating_add(self.safe_area.right)),
            height: self.viewport.height.saturating_sub(self.safe_area.top.saturating_add(self.safe_area.bottom)),
        }
    }

    /// The input environment this profile offers.
    pub fn input_environment(&self) -> (r: InputEnvironment)
        ensures
            r == input_environment_of(*self),
    {
        if self.input.touch && !self.input.pointer {
            InputEnvironment::Touch
        } else if self.input.pointer {
            InputEnvironment::Pointer
        } else {
            InputEnvironment::Any
        }
    }
}

/// Ordered, deterministic device-profile catalog used by the Designer.
#[derive(Debug, PartialEq, Eq)]
pub struct DeviceProfileMatrix {
    pub profiles: OrderedMap<DeviceProfileId, DeviceProfile>,
}

impl Default for DeviceProfileMatrix {
    fn default() -> (r: Self)
        ensures
            r.profiles@ == Map::<Seq<char>, DeviceProfile>::empty(),
    {
        DeviceProfileMatrix { profiles: OrderedMap::new() }
    }
}

/// One row of the standard profile matrix: identity, name, width, height,
/// orientation, pixel ratio, touch and pointer.
pub type StandardProfile = (Seq<char>, Seq<char>, u32, u32, Orientation, Seq<char>, bool, bool);

/// The standard profiles: phone, foldable, tablet, laptop, desktop,
/// ultrawide, television and 4K, each in portrait (short side across) and
/// landscape (long side across).
pub open spec fn standard_profile(i: int) -> StandardProfile {
    if i == 0 {
        ("phone-portrait"@, "Phone portrait"@, 390, 844, Orientation::Portrait, "3.0"@, true, false)
    } else if i == 1 {
        ("phone-landscape"@, "Phone landscape"@, 844, 390, Orientation::Landscape, "3.0"@, true, false)
    } else if i == 2 {
        ("foldable-portrait"@, "Foldable portrait"@, 673, 841, Orientation::Portrait, "2.0"@, true, false)
    } else if i == 3 {
        ("foldable-landscape"@, "Foldable landscape"@, 841, 673, Orientation::Landscape, "2.0"@, true, false)
    } else if i == 4 {
        ("tablet-portrait"@, "Tablet portrait"@, 834, 1194, Orientation::Portrait, "2.0"@, true, false)
    } else if i == 5 {
        ("tablet-landscape"@, "Tablet landscape"@, 1194, 834, Orientation::Landscape, "2.0"@, true, false)
    } else if i == 6 {
        ("laptop-portrait"@, "Laptop portrait"@, 900, 1440, Orientation::Portrait, "1.0"@, true, true)
    } else if i == 7 {
        ("laptop-landscape"@, "Laptop landscape"@, 1440, 900, Orientation::Landscape, "1.0"@, true, true)
    } else if i == 8 {
        ("desktop-portrait"@, "Desktop portrait"@, 1080, 1920, Orientation::Portrait, "1.0"@, true, true)
    } else if i == 9 {
        ("desktop-landscape"@, "Desktop landscape"@, 1920, 1080, Orientation::Landscape, "1.0"@, true, true)
    } else if i == 10 {
        ("ultrawide-portrait"@, "Ultrawide portrait"@, 1080, 2560, Orientation::Portrait, "1.0"@, true, true)
    } else if i == 11 {
        ("ultrawide-landscape"@, "Ultrawide landscape"@, 2560, 1080, Orientation::Landscape, "1.0"@, true, true)
    } else if i == 12 {
        ("television-portrait"@, "Television portrait"@, 2160, 3840, Orientation::Portrait, "1.0"@, false, false)
    } else if i == 13 {
        ("television-landscape"@, "Television landscape"@, 3840, 2160, Orientation::Landscape, "1.0"@, false, false)
    } else if i == 14 {
        ("4k-portrait"@, "4K portrait"@, 2160, 3840, Orientation::Portrait, "1.0"@, true, true)
    } else if i == 15 {
        ("4k-landscape"@, "4K landscape"@, 3840, 2160, Orientation::Landscape, "1.0"@, true, true)
    } else {
        (Seq::empty(), Seq::empty(), 0, 0, Orientation::Portrait, Seq::empty(), false, false)
    }
}

/// Whether `p` is the profile a standard row describes: touch profiles keep
/// a 24-pixel top and 16-pixel bottom safe area, a pointer brings a
/// keyboard, and a profile with neither is driven by remote focus.
pub open spec fn profile_is(p: DeviceProfile, row: StandardProfile) -> bool {
    &&& p.schema_version == STUDIO_DESIGN_SCHEMA_VERSION
    &&& p.id@ == row.0
    &&& p.name@ == row.1
    &&& p.viewport == (Viewport { width: row.2, height: row.3 })
    &&& p.orientation == row.4
    &&& p.safe_area == (if row.6 {
        Insets { top: 24, right: 0, bottom: 16, left: 0 }
    } else {
        Insets { top: 0, right: 0, bottom: 0, left: 0 }
    })
    &&& p.pixel_ratio@ == row.5
    &&& p.input == (DeviceInput {
        pointer: row.7,
        touch: row.6,
        keyboard: row.7,
        remote_focus: !row.7 && !row.6,
    })
}

fn add_standard_profile(
    profiles: &mut OrderedMap<DeviceProfileId, DeviceProfile>,
    id: &str,
    name: &str,
    width: u32,
    height: u32,
    orientation: Orientation,
    pixel_ratio: &str,
    touch: bool,
    pointer: bool,
)
    requires
        valid_identity(id@),
    ensures
        final(profiles)@.dom() == old(profiles)@.dom().insert(id@),
        forall|k: Seq<char>| k != id@ && #[trigger] old(profiles)@.contains_key(k) ==> final(profiles)@[k] == old(profiles)@[k],
        profile_is(final(profiles)@[id@], (id@, name@, width, height, orientation, pixel_ratio@, touch, pointer)),
{
    match Id::new(id) {
        Ok(profile_id) => {
            let profile = DeviceProfile {
                schema_version: STUDIO_DESIGN_SCHEMA_VERSION,
                id: profile_id.copy(),
                name: String::from_str(name),
                viewport: Viewport { width, height },
                orientation,
                safe_area: if touch {
                    Insets { top: 24, right: 0, bottom: 16, left: 0 }
                } else {
                    Insets { top: 0, right: 0, bottom: 0, left: 0 }
                },
                pixel_ratio: String::from_str(pixel_ratio),
                input: DeviceInput { pointer, touch, keyboard: pointer, remote_focus: !pointer && !touch },
            };
            profiles.insert(profile_id, profile);
            assert(final(profiles)@.dom() =~= old(profiles)@.dom().insert(id@));
        },
        Err(_) => {},
    }
}

impl DeviceProfileMatrix {
    /// Build the canonical phone-through-4K profile matrix.
    pub fn standard() -> (r: Self)
        ensures
            forall|k: Seq<char>| #[trigger] r.profiles@.contains_key(k) <==> exists|i: int| 0 <= i < 16 && k == #[trigger] standard_profile(i).0,
            forall|i: int| 0 <= i < 16 ==> r.profiles@.contains_key(#[trigger] standard_profile(i).0) && profile_is(r.profiles@[standard_profile(i).0], standard_profile(i)),
    {
        let mut profiles: OrderedMap<DeviceProfileId, DeviceProfile> = OrderedMap::new();
        proof {
            reveal_strlit("phone-portrait");
            lemma_utf8_len_bounds("phone-portrait"@);
        }
        add_standard_profile(&mut profiles, "phone-portrait", "Phone portrait", 390, 844, Orientation::Portrait, "3.0", true, false);
        assert(profiles@.contains_key(standard_profile(0).0) && profile_is(profiles@[standard_profile(0).0], standard_profile(0)));
        proof {
            reveal_strlit("phone-landscape");
            lemma_utf8_len_bounds("phone-landscape"@);
        }
        add_standard_profile(&mut profiles, "phone-landscape", "Phone landscape", 844, 390, Orientation::Landscape, "3.0", true, false);
        assert(profiles@.contains_key(standard_profile(1).0) && profile_is(profiles@[standard_profile(1).0], standard_profile(1)));
        proof {
            reveal_strlit("foldable-portrait");
            lemma_utf8_len_bounds("foldable-portrait"@);
        }
        add_standard_profile(&mut profiles, "foldable-portrait", "Foldable portrait", 673, 841, Orientation::Portrait, "2.0", true, false);
        assert(profiles@.contains_key(standard_profile(2).0) && profile_is(profiles@[standard_profile(2).0], standard_profile(2)));
        proof {
            reveal_strlit("foldable-landscape");
            lemma_utf8_len_bounds("foldable-landscape"@);
        }
        add_standard_profile(&mut profiles, "foldable-landscape", "Foldable landscape", 841, 673, Orientation::Landscape, "2.0", true, false);
        assert(profiles@.contains_key(standard_profile(3).0) && profile_is(profiles@[standard_profile(3).0], standard_profile(3)));
        proof {
            reveal_strlit("tablet-portrait");
            lemma_utf8_len_bounds("tablet-portrait"@);
        }
        add_standard_profile(&mut profiles, "tablet-portrait", "Tablet portrait", 834, 1194, Orientation::Portrait, "2.0", true, false);
        assert(profiles@.contains_key(standard_profile(4).0) && profile_is(profiles@[standard_profile(4).0], standard_profile(4)));
        proof {
            reveal_strlit("tablet-landscape");
            lemma_utf8_len_bounds("tablet-landscape"@);
        }
        add_standard_profile(&mut profiles, "tablet-landscape", "Tablet landscape", 1194, 834, Orientation::Landscape, "2.0", true, false);
        assert(profiles@.contains_key(standard_profile(5).0) && profile_is(profiles@[standard_profile(5).0], standard_profile(5)));
        proof {
            reveal_strlit("laptop-portrait");
            lemma_utf8_len_bounds("laptop-portrait"@);
        }
        add_standard_profile(&mut profiles, "laptop-portrait", "Laptop portrait", 900, 1440, Orientation::Portrait, "1.0", true, true);
        assert(profiles@.contains_key(standard_profile(6).0) && profile_is(profiles@[standard_profile(6).0], standard_profile(6)));
        proof {
            reveal_strlit("laptop-landscape");
            lemma_utf8_len_bounds("laptop-landscape"@);
        }
        add_standard_profile(&mut profiles, "laptop-landscape", "Laptop landscape", 1440, 900, Orientation::Landscape, "1.0", true, true);
        assert(profiles@.contains_key(standard_profile(7).0) && profile_is(profiles@[standard_profile(7).0], standard_profile(7)));
        proof {
            reveal_strlit("desktop-portrait");
            lemma_utf8_len_bounds("desktop-portrait"@);
        }
        add_standard_profile(&mut profiles, "desktop-portrait", "Desktop portrait", 1080, 1920, Orientation::Portrait, "1.0", true, true);
        assert(profiles@.contains_key(standard_profile(8).0) && profile_is(profiles@[standard_profile(8).0], standard_profile(8)));
        proof {
            reveal_strlit("desktop-landscape");
            lemma_utf8_len_bounds("desktop-landscape"@);
        }
        add_standard_profile(&mut profiles, "desktop-landscape", "Desktop landscape", 1920, 1080, Orientation::Landscape, "1.0", true, true);
        assert(profiles@.contains_key(standard_profile(9).0) && profile_is(profiles@[standard_profile(9).0], standard_profile(9)));
        proof {
            reveal_strlit("ultrawide-portrait");
            lemma_utf8_len_bounds("ultrawide-portrait"@);
        }
        add_standard_profile(&mut profiles, "ultrawide-portrait", "Ultrawide portrait", 1080, 2560, Orientation::Portrait, "1.0", true, true);
        assert(profiles@.contains_key(standard_profile(10).0) && profile_is(profiles@[standard_profile(10).0], standard_profile(10)));
        proof {
            reveal_strlit("ultrawide-landscape");
            lemma_utf8_len_bounds("ultrawide-landscape"@);
        }
        add_standard_profile(&mut profiles, "ultrawide-landscape", "Ultrawide landscape", 2560, 1080, Orientation::Landscape, "1.0", true, true);
        assert(profiles@.contains_key(standard_profile(11).0) && profile_is(profiles@[standard_profile(11).0], standard_profile(11)));
        proof {
            reveal_strlit("television-portrait");
            lemma_utf8_len_bounds("television-portrait"@);
        }
        add_standard_profile(&mut profiles, "television-portrait", "Television portrait", 2160, 3840, Orientation::Portrait, "1.0", false, false);
        assert(profiles@.contains_key(standard_profile(12).0) && profile_is(profiles@[standard_profile(12).0], standard_profile(12)));
        proof {
            reveal_strlit("television-landscape");
            lemma_utf8_len_bounds("television-landscape"@);
        }
        add_standard_profile(&mut profiles, "television-landscape", "Television landscape", 3840, 2160, Orientation::Landscape, "1.0", false, false);
        assert(profiles@.contains_key(standard_profile(13).0) && profile_is(profiles@[standard_profile(13).0], standard_profile(13)));
        proof {
            reveal_strlit("4k-portrait");
            lemma_utf8_len_bounds("4k-portrait"@);
        }
        add_standard_profile(&mut profiles, "4k-portrait", "4K portrait", 2160, 3840, Orientation::Portrait, "1.0", true, true);
        assert(profiles@.contains_key(standard_profile(14).0) && profile_is(profiles@[standard_profile(14).0], standard_profile(14)));
        proof {
            reveal_strlit("4k-landscape");
            lemma_utf8_len_bounds("4k-landscape"@);
        }
        add_standard_profile(&mut profiles, "4k-landscape", "4K landscape", 3840, 2160, Orientation::Landscape, "1.0", true, true);
        assert(profiles@.contains_key(standard_profile(15).0) && profile_is(profiles@[standard_profile(15).0], standard_profile(15)));
        assert forall|i: int| 0 <= i < 16 implies profiles@.contains_key(#[trigger] standard_profile(i).0) && profile_is(profiles@[standard_profile(i).0], standard_profile(i)) by {
            if i == 0 {
                assert(profiles@.contains_key(standard_profile(0).0));
            } else if i == 1 {
                assert(profiles@.contains_key(standard_profile(1).0));
            } else if i == 2 {
                assert(profiles@.contains_key(standard_profile(2).0));
            } else if i == 3 {
                assert(profiles@.contains_key(standard_profile(3).0));
            } else if i == 4 {
                assert(profiles@.contains_key(standard_profile(4).0));
            } else if i == 5 {
                assert(profiles@.contains_key(standard_profile(5).0));
            } else if i == 6 {
                assert(profiles@.contains_key(standard_profile(6).0));
            } else if i == 7 {
                assert(profiles@.contains_key(standard_profile(7).0));
            } else if i == 8 {
                assert(profiles@.contains_key(standard_profile(8).0));
            } else if i == 9 {
                assert(profiles@.contains_key(standard_profile(9).0));
            } else if i == 10 {
                assert(profiles@.contains_key(standard_profile(10).0));
            } else if i == 11 {
                assert(profiles@.contains_key(standard_profile(11).0));
            } else if i == 12 {
                assert(profiles@.contains_key(standard_profile(12).0));
            } else if i == 13 {
                assert(profiles@.contains_key(standard_profile(13).0));
            } else if i == 14 {
                assert(profiles@.contains_key(standard_profile(14).0));
            } else if i == 15 {
                assert(profiles@.contains_key(standard_profile(15).0));
            }
        }
        let r = DeviceProfileMatrix { profiles };
        assert forall|k: Seq<char>| #[trigger] r.profiles@.contains_key(k) implies exists|i: int| 0 <= i < 16 && k == #[trigger] standard_profile(i).0 by {
            if k == standard_profile(0).0 { assert(k == standard_profile(0).0); }
        }
        r
    }
}

/// Whether a variant applies at a content width and input environment: the
/// width lies within its optional bounds and its input is `Any` or equal.
pub open spec fn variant_matches_spec(v: ResponsiveVariant, width: u32, input: InputEnvironment) -> bool {
    &&& (v.minimum_width matches Some(m) ==> width >= m)
    &&& (v.maximum_width matches Some(m) ==> width <= m)
    &&& (v.input == InputEnvironment::Any || v.input == input)
}

/// `a < b` for optional widths, an absent width being the least.
pub open spec fn opt_lt(a: Option<u32>, b: Option<u32>) -> bool {
    match b {
        Some(y) => match a {
            Some(x) => x < y,
            None => true,
        },
        None => false,
    }
}

/// Whether variant `a` is more specific than `b`: a greater minimum width,
/// then a lesser maximum width, then a lesser identity.
pub open spec fn variant_better(a: ResponsiveVariant, b: ResponsiveVariant) -> bool {
    ||| opt_lt(b.minimum_width, a.minimum_width)
    ||| (a.minimum_width == b.minimum_width && opt_lt(a.maximum_width, b.maximum_width))
    ||| (a.minimum_width == b.minimum_width && a.maximum_width == b.maximum_width && chars_before(a.id@, b.id@))
}

proof fn lemma_better_asymmetric(a: ResponsiveVariant, b: ResponsiveVariant)
    ensures
        variant_better(a, b) ==> !variant_better(b, a),
{
    crate::text::lemma_before_asymmetric(a.id@, b.id@);
}

proof fn lemma_better_negatively_transitive(a: ResponsiveVariant, b: ResponsiveVariant, c: ResponsiveVariant)
    ensures
        !variant_better(a, b) && !variant_better(b, c) ==> !variant_better(a, c),
{
    crate::text::lemma_before_total(a.id@, b.id@);
    crate::text::lemma_before_total(b.id@, c.id@);
    crate::text::lemma_before_transitive(a.id@, b.id@, c.id@);
    crate::text::lemma_before_transitive(c.id@, b.id@, a.id@);
    crate::text::lemma_before_transitive(a.id@, c.id@, b.id@);
    crate::text::lemma_before_transitive(b.id@, a.id@, c.id@);
    crate::text::lemma_before_transitive(c.id@, a.id@, b.id@);
    crate::text::lemma_before_transitive(b.id@, c.id@, a.id@);
    crate::text::lemma_before_irreflexive(a.id@);
    crate::text::lemma_before_irreflexive(b.id@);
}

/// Whether a variant applies at a content width and input environment.
pub fn variant_matches(variant: &ResponsiveVariant, width: u32, input: InputEnvironment) -> (r: bool)
    ensures
        r == variant_matches_spec(*variant, width, input),
{
    let min_ok = match variant.minimum_width {
        Some(m) => width >= m,
        None => true,
    };
    let max_ok = match variant.maximum_width {
        Some(m) => width <= m,
        None => true,
    };
    min_ok && max_ok && (variant.input == InputEnvironment::Any || variant.input == input)
}

fn opt_less(a: Option<u32>, b: Option<u32>) -> (r: bool)
    ensures
        r == opt_lt(a, b),
{
    match b {
        Some(y) => match a {
            Some(x) => x < y,
            None => true,
        },
        None => false,
    }
}

fn better(a: &ResponsiveVariant, b: &ResponsiveVariant) -> (r: bool)
    ensures
        r == variant_better(*a, *b),
{
    if opt_less(b.minimum_width, a.minimum_width) {
        return true;
    }
    if a.minimum_width != b.minimum_width {
        return false;
    }
    if opt_less(a.maximum_width, b.maximum_width) {
        return true;
    }
    if a.maximum_width != b.maximum_width {
        return false;
    }
    crate::text::compare_strs(a.id.as_str(), b.id.as_str()) == crate::text::KeyOrder::Less
}

/// The variant that a profile selects: one that applies to its content
/// width and input environment and that no applicable variant is more
/// specific than.
pub open spec fn selects(design: &StudioDesign, profile: DeviceProfile, key: Seq<char>) -> bool {
    let width = content_viewport_of(profile).width;
    let input = input_environment_of(profile);
    &&& design.responsive_variants@.contains_key(key)
    &&& variant_matches_spec(design.responsive_variants@[key], width, input)
    &&& forall|k: Seq<char>| #[trigger] design.responsive_variants@.contains_key(k) && variant_matches_spec(design.responsive_variants@[k], width, input)
        ==> !variant_better(design.responsive_variants@[k], design.responsive_variants@[key])
}

/// Whether no variant applies to a profile.
pub open spec fn none_applies(design: &StudioDesign, profile: DeviceProfile) -> bool {
    forall|k: Seq<char>| #[trigger] design.responsive_variants@.contains_key(k) ==> !variant_matches_spec(
        design.responsive_variants@[k],
        content_viewport_of(profile).width,
        input_environment_of(profile),
    )
}

/// The variant selected for a profile applies to it: the profile's content
/// width lies within the variant's bounds, and an input-specific variant is
/// selected only for a profile with that input: a pointer variant only for
/// a profile with a pointer, a touch variant only for a touch profile
/// without a pointer. In particular a pointer variant is never selected for
/// a profile without a pointer, whatever other variant exists.
pub proof fn lemma_selected_variant_applies(design: &StudioDesign, profile: DeviceProfile, key: Seq<char>)
    requires
        selects(design, profile, key),
    ensures
        ({
            let v = design.responsive_variants@[key];
            let w = content_viewport_of(profile).width;
            &&& v.minimum_width is Some ==> w >= v.minimum_width->0
            &&& v.maximum_width is Some ==> w <= v.maximum_width->0
            &&& v.input == InputEnvironment::Pointer ==> profile.input.pointer
            &&& v.input == InputEnvironment::Touch ==> profile.input.touch && !profile.input.pointer
        }),
{
}

/// The selected variant is the most specific that applies: no variant with
/// input `Any` whose bounds contain the profile's width has a greater
/// minimum width, and one with the same minimum has no lesser maximum.
pub proof fn lemma_selected_variant_most_specific(design: &StudioDesign, profile: DeviceProfile, key: Seq<char>, other: Seq<char>)
    requires
        selects(design, profile, key),
        design.responsive_variants@.contains_key(other),
        design.responsive_variants@[other].input == InputEnvironment::Any,
        design.responsive_variants@[other].minimum_width is Some ==> content_viewport_of(profile).width
            >= design.responsive_variants@[other].minimum_width->0,
        design.responsive_variants@[other].maximum_width is Some ==> content_viewport_of(profile).width
            <= design.responsive_variants@[other].maximum_width->0,
    ensures
        ({
            let v = design.responsive_variants@[key];
            let o = design.responsive_variants@[other];
            &&& o.minimum_width is Some ==> v.minimum_width is Some && v.minimum_width->0 >= o.minimum_width->0
            &&& (v.minimum_width == o.minimum_width && v.maximum_width is Some) ==> o.maximum_width is Some
                && o.maximum_width->0 >= v.maximum_width->0
        }),
{
    assert(variant_matches_spec(design.responsive_variants@[other], content_viewport_of(profile).width, input_environment_of(profile)));
}

/// An input-specific variant applies to a profile with that input: a
/// pointer variant whose bounds contain the width applies to a profile with
/// a pointer, and a touch variant to a touch profile without a pointer.
pub proof fn lemma_input_variant_applies(design: &StudioDesign, profile: DeviceProfile, key: Seq<char>)
    requires
        design.responsive_variants@.contains_key(key),
        design.responsive_variants@[key].minimum_width is Some ==> content_viewport_of(profile).width
            >= design.responsive_variants@[key].minimum_width->0,
        design.responsive_variants@[key].maximum_width is Some ==> content_viewport_of(profile).width
            <= design.responsive_variants@[key].maximum_width->0,
    ensures
        design.responsive_variants@[key].input == InputEnvironment::Pointer && profile.input.pointer ==> !none_applies(design, profile),
        design.responsive_variants@[key].input == InputEnvironment::Touch && profile.input.touch && !profile.input.pointer
            ==> !none_applies(design, profile),
{
    if (design.responsive_variants@[key].input == InputEnvironment::Pointer && profile.input.pointer)
        || (design.responsive_variants@[key].input == InputEnvironment::Touch && profile.input.touch && !profile.input.pointer) {
        assert(variant_matches_spec(design.responsive_variants@[key], content_viewport_of(profile).width, input_environment_of(profile)));
    }
}

/// A variant whose bounds contain the profile's content width and whose
/// input is `Any` applies, so some variant is selected for the profile.
pub proof fn lemma_any_input_variant_applies(design: &StudioDesign, profile: DeviceProfile, key: Seq<char>)
    requires
        design.responsive_variants@.contains_key(key),
        design.responsive_variants@[key].input == InputEnvironment::Any,
        design.responsive_variants@[key].minimum_width is Some ==> content_viewport_of(profile).width
            >= design.responsive_variants@[key].minimum_width->0,
        design.responsive_variants@[key].maximum_width is Some ==> content_viewport_of(profile).width
            <= design.responsive_variants@[key].maximum_width->0,
    ensures
        !none_applies(design, profile),
{
    assert(variant_matches_spec(design.responsive_variants@[key], content_viewport_of(profile).width, input_environment_of(profile)));
}

/// Select the most specific matching breakpoint deterministically.
pub fn select_variant(design: &StudioDesign, profile: &DeviceProfile) -> (r: Option<ResponsiveVariantId>)
    ensures
        r is None <==> none_applies(design, *profile),
        match r {
            Some(id) => exists|k: Seq<char>| #[trigger] selects(design, *profile, k) && design.responsive_variants@[k].id == id,
            None => true,
        },
{
    design.responsive_variants.reveal_entries();
    let ghost entries = design.responsive_variants.entry_seq();
    let ghost keys = design.responsive_variants.key_seq();
    let width = profile.content_viewport().width;
    let input = profile.input_environment();
    let n = design.responsive_variants.len();
    let mut best: Option<usize> = None;
    let mut i: usize = 0;
    while i < n
        invariant
            i <= n,
            n == entries.len(),
            entries == design.responsive_variants.entry_seq(),
            keys == design.responsive_variants.key_seq(),
            width == content_viewport_of(*profile).width,
            input == input_environment_of(*profile),
            forall|q: Seq<char>| #[trigger] design.responsive_variants@.contains_key(q) <==> keys.contains(q),
            forall|j: int| 0 <= j < entries.len() ==> #[trigger] design.responsive_variants@[entries[j].0.key_view()] == entries[j].1,
            match best {
                Some(b) => b < i && variant_matches_spec(entries[b as int].1, width, input) && forall|j: int|
                    0 <= j < i && variant_matches_spec(#[trigger] entries[j].1, width, input) ==> !variant_better(entries[j].1, entries[b as int].1),
                None => forall|j: int| 0 <= j < i ==> !variant_matches_spec(#[trigger] entries[j].1, width, input),
            },
        decreases n - i,
    {
        let v = design.responsive_variants.value_at(i);
        if variant_matches(v, width, input) {
            match best {
                Some(b) => {
                    let current = design.responsive_variants.value_at(b);
                    if !better(current, v) {
                        proof {
                            assert forall|j: int| 0 <= j < i + 1 && variant_matches_spec(#[trigger] entries[j].1, width, input) implies !variant_better(entries[j].1, entries[i as int].1) by {
                                lemma_better_negatively_transitive(entries[j].1, entries[b as int].1, entries[i as int].1);
                                lemma_better_asymmetric(entries[i as int].1, entries[i as int].1);
                            }
                        }
                        best = Some(i);
                    } else {
                        proof {
                            lemma_better_asymmetric(entries[b as int].1, entries[i as int].1);
                        }
                    }
                },
                None => {
                    proof {
                        lemma_better_asymmetric(entries[i as int].1, entries[i as int].1);
                    }
                    best = Some(i);
                },
            }
        }
        i = i + 1;
    }
    match best {
        Some(b) => {
            let id = design.responsive_variants.value_at(b).id.copy();
            proof {
                let key = entries[b as int].0.key_view();
                assert(keys[b as int] == key);
                assert(keys.contains(key));
                assert forall|k: Seq<char>| #[trigger] design.responsive_variants@.contains_key(k) && variant_matches_spec(design.responsive_variants@[k], width, input)
                    implies !variant_better(design.responsive_variants@[k], design.responsive_variants@[key]) by {
                    let j = keys.index_of(k);
                    assert(keys[j] == k);
                    assert(entries[j].0.key_view() == k);
                }
                assert(selects(design, *profile, key));
                assert(!none_applies(design, *profile));
            }
            Some(id)
        },
        None => {
            proof {
                assert forall|k: Seq<char>| #[trigger] design.responsive_variants@.contains_key(k) implies !variant_matches_spec(design.responsive_variants@[k], width, input) by {
                    let j = keys.index_of(k);
                    assert(keys[j] == k);
                    assert(entries[j].0.key_view() == k);
                }
            }
            None
        },
    }
}

/// Two profiles selecting applicable variants select the same identity:
/// selection is deterministic.
pub proof fn lemma_selection_unique(design: &StudioDesign, profile: DeviceProfile, a: Seq<char>, b: Seq<char>)
    requires
        selects(design, profile, a),
        selects(design, profile, b),
    ensures
        design.responsive_variants@[a].id@ == design.responsive_variants@[b].id@,
{
    let va = design.responsive_variants@[a];
    let vb = design.responsive_variants@[b];
    assert(!variant_better(va, vb));
    assert(!variant_better(vb, va));
    crate::text::lemma_before_total(va.id@, vb.id@);
}

/// Logical property path shown in the inspector and comparison report.
#[derive(Clone, Debug, PartialEq, Eq)]
pub enum PropertyPath {
    Property(String),
    Layout(String),
    Style(String),
}

/// The rank of a path's kind in path order: properties, then layout, then
/// style.
pub open spec fn path_rank(p: PropertyPath) -> int {
    match p {
        PropertyPath::Property(_) => 0,
        PropertyPath::Layout(_) => 1,
        PropertyPath::Style(_) => 2,
    }
}

/// The name of a path.
pub open spec fn path_name(p: PropertyPath) -> Seq<char> {
    match p {
        PropertyPath::Property(s) => s@,
        PropertyPath::Layout(s) => s@,
        PropertyPath::Style(s) => s@,
    }
}

/// Path order: by kind, then by name.
pub open spec fn path_before(a: PropertyPath, b: PropertyPath) -> bool {
    path_rank(a) < path_rank(b) || (path_rank(a) == path_rank(b) && chars_before(path_name(a), path_name(b)))
}

impl PropertyPath {
    /// A copy of this path.
    pub fn copy(&self) -> (r: Self)
        ensures
            r == *self,
    {
        match self {
            PropertyPath::Property(s) => PropertyPath::Property(s.clone()),
            PropertyPath::Layout(s) => PropertyPath::Layout(s.clone()),
            PropertyPath::Style(s) => PropertyPath::Style(s.clone()),
        }
    }

    fn rank(&self) -> (r: u8)
        ensures
            r == path_rank(*self),
    {
        match self {
            PropertyPath::Property(_) => 0,
            PropertyPath::Layout(_) => 1,
            PropertyPath::Style(_) => 2,
        }
    }

    fn name(&self) -> (r: &str)
        ensures
            r@ == path_name(*self),
    {
        match self {
            PropertyPath::Property(s) => s.as_str(),
            PropertyPath::Layout(s) => s.as_str(),
            PropertyPath::Style(s) => s.as_str(),
        }
    }
}

/// One resolved property and its breakpoint provenance.
#[derive(Clone, Debug, PartialEq)]
pub struct PropertyProvenance {
    pub node_id: NodeId,
    pub path: PropertyPath,
    pub value: Option<PropertyValue>,
    pub provenance: BreakpointProvenance,
}

/// A node with base-plus-breakpoint values resolved for a profile.
#[derive(Debug, PartialEq)]
pub struct ResolvedNode {
    pub node_id: NodeId,
    pub variant: Option<ResponsiveVariantId>,
    pub properties: OrderedMap<String, PropertyProvenance>,
    pub layout: LayoutProperties,
    pub style: StyleProperties,
}

/// A style with each present field of `over` replacing the base field.
pub open spec fn merged_style(base: StyleProperties, over: StyleProperties) -> StyleProperties {
    StyleProperties {
        schema_version: base.schema_version,
        background: crate::model::or_else(over.background, base.background),
        foreground: crate::model::or_else(over.foreground, base.foreground),
        opacity: crate::model::or_else(over.opacity, base.opacity),
        corner_radius: crate::model::or_else(over.corner_radius, base.corner_radius),
        border_width: crate::model::or_else(over.border_width, base.border_width),
        border_color: crate::model::or_else(over.border_color, base.border_color),
    }
}

/// A breakpoint style override wins field by field: every style field the
/// override sets is the resolved value, and every field it leaves unset
/// keeps the base value; the schema version is the base's.
pub proof fn lemma_override_style_wins(base: StyleProperties, over: StyleProperties)
    ensures
        merged_style(base, over).schema_version == base.schema_version,
        over.background is Some ==> merged_style(base, over).background == over.background,
        over.background is None ==> merged_style(base, over).background == base.background,
        over.foreground is Some ==> merged_style(base, over).foreground == over.foreground,
        over.foreground is None ==> merged_style(base, over).foreground == base.foreground,
        over.opacity is Some ==> merged_style(base, over).opacity == over.opacity,
        over.opacity is None ==> merged_style(base, over).opacity == base.opacity,
        over.corner_radius is Some ==> merged_style(base, over).corner_radius == over.corner_radius,
        over.corner_radius is None ==> merged_style(base, over).corner_radius == base.corner_radius,
        over.border_width is Some ==> merged_style(base, over).border_width == over.border_width,
        over.border_width is None ==> merged_style(base, over).border_width == base.border_width,
        over.border_color is Some ==> merged_style(base, over).border_color == over.border_color,
        over.border_color is None ==> merged_style(base, over).border_color == base.border_color,
{
}

fn pick_paint(over: &Option<Paint>, base: &Option<Paint>) -> (r: Option<Paint>)
    ensures
        r == crate::model::or_else(*over, *base),
{
    match over {
        Some(p) => Some(p.copy()),
        None => crate::model::copy_opt_paint(base),
    }
}

fn pick_string(over: &Option<String>, base: &Option<String>) -> (r: Option<String>)
    ensures
        r == crate::model::or_else(*over, *base),
{
    match over {
        Some(p) => Some(p.clone()),
        None => crate::model::copy_opt_string(base),
    }
}

/// Merge a sparse style override onto a base style.
pub fn merge_style(base: &StyleProperties, override_value: &StyleProperties) -> (r: StyleProperties)
    ensures
        r == merged_style(*base, *override_value),
{
    StyleProperties {
        schema_version: base.schema_version,
        background: pick_paint(&override_value.background, &base.background),
        foreground: pick_paint(&override_value.foreground, &base.foreground),
        opacity: pick_string(&override_value.opacity, &base.opacity),
        corner_radius: crate::model::pick_length(&override_value.corner_radius, &base.corner_radius),
        border_width: crate::model::pick_length(&override_value.border_width, &base.border_width),
        border_color: pick_paint(&override_value.border_color, &base.border_color),
    }
}

/// Merging an empty style override keeps the base style.
pub proof fn lemma_merge_style_with_empty(base: StyleProperties, over: StyleProperties)
    requires
        over.background is None,
        over.foreground is None,
        over.opacity is None,
        over.corner_radius is None,
        over.border_width is None,
        over.border_color is None,
    ensures
        merged_style(base, over) == base,
{
}

/// The override a node declares for an optional variant.
pub open spec fn override_for(node: DesignNode, variant: Option<ResponsiveVariantId>) -> Option<ResponsiveNodeOverride> {
    match variant {
        Some(id) => if node.responsive_overrides@.contains_key(id@) {
            Some(node.responsive_overrides@[id@])
        } else {
            None
        },
        None => None,
    }
}

/// A breakpoint property override wins: a resolved property that the
/// selected variant's override declares takes the override's value and is
/// attributed to that breakpoint; one it does not declare keeps the node's
/// base value and is attributed to the base.
pub proof fn lemma_override_property_wins(p: PropertyProvenance, node: DesignNode, variant: Option<ResponsiveVariantId>, name: Seq<char>)
    requires
        property_resolved(p, node, variant, name),
    ensures
        variant is Some && node.responsive_overrides@.contains_key(variant->0@)
            && node.responsive_overrides@[variant->0@].properties@.contains_key(name) ==> {
            &&& p.value is Some
            &&& crate::model::same_value(node.responsive_overrides@[variant->0@].properties@[name], p.value->0)
            &&& p.provenance == BreakpointProvenance::Breakpoint(variant->0)
        },
        !(variant is Some && node.responsive_overrides@.contains_key(variant->0@)
            && node.responsive_overrides@[variant->0@].properties@.contains_key(name)) ==> {
            &&& p.value is Some
            &&& crate::model::same_value(node.properties@[name], p.value->0)
            &&& p.provenance == BreakpointProvenance::Base
        },
{
}

/// Whether the override declares property `name`.
pub open spec fn overrides_property(ov: Option<ResponsiveNodeOverride>, name: Seq<char>) -> bool {
    ov matches Some(o) && o.properties@.contains_key(name)
}

/// Optional values equal up to the contents of their vectors.
pub open spec fn same_opt_value(a: Option<PropertyValue>, b: Option<PropertyValue>) -> bool {
    match a {
        Some(x) => b matches Some(y) && crate::model::same_value(x, y),
        None => b is None,
    }
}

/// The provenance of a value drawn from the override of `variant`.
pub open spec fn breakpoint_of(p: BreakpointProvenance, variant: Option<ResponsiveVariantId>) -> bool {
    p matches BreakpointProvenance::Breakpoint(id) && variant == Some(id)
}

/// Whether `p` is the resolved entry of property `name`: the override value
/// and breakpoint provenance when the override declares the property,
/// otherwise the node's own value from the base.
pub open spec fn property_resolved(
    p: PropertyProvenance,
    node: DesignNode,
    variant: Option<ResponsiveVariantId>,
    name: Seq<char>,
) -> bool {
    let ov = override_for(node, variant);
    &&& p.node_id == node.id
    &&& p.path matches PropertyPath::Property(s) && s@ == name
    &&& if overrides_property(ov, name) {
        &&& same_opt_value(Some(ov->0.properties@[name]), p.value)
        &&& breakpoint_of(p.provenance, variant)
    } else {
        &&& same_opt_value(Some(node.properties@[name]), p.value)
        &&& p.provenance == BreakpointProvenance::Base
    }
}

/// Whether `variant` is what `select_variant` may return for a profile.
pub open spec fn selected(design: &StudioDesign, profile: DeviceProfile, variant: Option<ResponsiveVariantId>) -> bool {
    match variant {
        Some(id) => exists|k: Seq<char>| #[trigger] selects(design, profile, k) && design.responsive_variants@[k].id == id,
        None => none_applies(design, profile),
    }
}

/// Resolve one node's sparse breakpoint override for a device profile.
pub fn resolve_node(design: &StudioDesign, node: &DesignNode, profile: &DeviceProfile) -> (r: ResolvedNode)
    ensures
        r.node_id == node.id,
        selected(design, *profile, r.variant),
        forall|k: Seq<char>| #[trigger] r.properties@.contains_key(k) <==> (node.properties@.contains_key(k)
            || overrides_property(override_for(*node, r.variant), k)),
        forall|k: Seq<char>| #[trigger] r.properties@.contains_key(k) ==> property_resolved(r.properties@[k], *node, r.variant, k),
        r.layout == match override_for(*node, r.variant) {
            Some(o) => crate::model::merged_layout(node.layout, o.layout),
            None => node.layout,
        },
        r.style == match override_for(*node, r.variant) {
            Some(o) => merged_style(node.style, o.style),
            None => node.style,
        },
{
    let variant = select_variant(design, profile);
    let ov: Option<&ResponsiveNodeOverride> = match &variant {
        Some(id) => node.responsive_overrides.get(id.as_str()),
        None => None,
    };
    assert(match ov {
        Some(o) => override_for(*node, variant) == Some(*o),
        None => override_for(*node, variant) is None,
    });
    let mut properties: OrderedMap<String, PropertyProvenance> = OrderedMap::new();
    node.properties.reveal_entries();
    let ghost entries = node.properties.entry_seq();
    let ghost keys = node.properties.key_seq();
    let n = node.properties.len();
    let mut i: usize = 0;
    while i < n
        invariant
            i <= n,
            n == keys.len(),
            entries == node.properties.entry_seq(),
            keys == node.properties.key_seq(),
            forall|q: Seq<char>| #[trigger] node.properties@.contains_key(q) <==> keys.contains(q),
            forall|j: int| 0 <= j < entries.len() ==> #[trigger] node.properties@[entries[j].0.key_view()] == entries[j].1,
            match ov {
                Some(o) => override_for(*node, variant) == Some(*o),
                None => override_for(*node, variant) is None,
            },
            forall|k: Seq<char>| #[trigger] properties@.contains_key(k) <==> keys.take(i as int).contains(k),
            forall|k: Seq<char>| #[trigger] properties@.contains_key(k) ==> property_resolved(properties@[k], *node, variant, k),
        decreases n - i,
    {
        let name = node.properties.key_at(i);
        let value = node.properties.value_at(i);
        assert(keys[i as int] == name@);
        assert(entries[i as int].0.key_view() == name@);
        let over_value: Option<&PropertyValue> = match ov {
            Some(o) => o.properties.get(name.as_str()),
            None => None,
        };
        let entry = match over_value {
            Some(v) => PropertyProvenance {
                node_id: node.id.copy(),
                path: PropertyPath::Property(name.clone()),
                value: Some(v.copy()),
                provenance: match &variant {
                    Some(id) => BreakpointProvenance::Breakpoint(id.copy()),
                    None => BreakpointProvenance::Base,
                },
            },
            None => PropertyProvenance {
                node_id: node.id.copy(),
                path: PropertyPath::Property(name.clone()),
                value: Some(value.copy()),
                provenance: BreakpointProvenance::Base,
            },
        };
        properties.insert(name.clone(), entry);
        assert forall|k: Seq<char>| keys.take(i + 1).contains(k) <==> (keys.take(i as int).contains(k) || k == name@) by {
            if keys.take(i + 1).contains(k) {
                let m = choose|m: int| 0 <= m < i + 1 && #[trigger] keys.take(i + 1)[m] == k;
                if m < i {
                    assert(keys.take(i as int)[m] == k);
                }
            }
            if keys.take(i as int).contains(k) {
                let m = choose|m: int| 0 <= m < i && #[trigger] keys.take(i as int)[m] == k;
                assert(keys.take(i + 1)[m] == k);
            }
            assert(keys.take(i + 1)[i as int] == name@);
        }
        i = i + 1;
    }
    assert(keys.take(n as int) == keys);
    match ov {
        Some(o) => {
            o.properties.reveal_entries();
            let ghost oentries = o.properties.entry_seq();
            let ghost okeys = o.properties.key_seq();
            let m = o.properties.len();
            let mut j: usize = 0;
            while j < m
                invariant
                    j <= m,
                    m == okeys.len(),
                    oentries == o.properties.entry_seq(),
                    okeys == o.properties.key_seq(),
                    override_for(*node, variant) == Some(*o),
                    variant is Some,
                    forall|q: Seq<char>| #[trigger] o.properties@.contains_key(q) <==> okeys.contains(q),
                    forall|q: Seq<char>| #[trigger] node.properties@.contains_key(q) <==> keys.contains(q),
                    forall|t: int| 0 <= t < oentries.len() ==> #[trigger] o.properties@[oentries[t].0.key_view()] == oentries[t].1,
                    forall|k: Seq<char>| #[trigger] properties@.contains_key(k) <==> (keys.contains(k) || okeys.take(j as int).contains(k)),
                    forall|k: Seq<char>| #[trigger] properties@.contains_key(k) ==> property_resolved(properties@[k], *node, variant, k),
                decreases m - j,
            {
                let name = o.properties.key_at(j);
                let value = o.properties.value_at(j);
                assert(okeys[j as int] == name@);
                assert(oentries[j as int].0.key_view() == name@);
                if !properties.contains_key(name.as_str()) {
                    let entry = PropertyProvenance {
                        node_id: node.id.copy(),
                        path: PropertyPath::Property(name.clone()),
                        value: Some(value.copy()),
                        provenance: match &variant {
                            Some(id) => BreakpointProvenance::Breakpoint(id.copy()),
                            None => BreakpointProvenance::Base,
                        },
                    };
                    properties.insert(name.clone(), entry);
                }
                assert forall|k: Seq<char>| okeys.take(j + 1).contains(k) <==> (okeys.take(j as int).contains(k) || k == name@) by {
                    if okeys.take(j + 1).contains(k) {
                        let q = choose|q: int| 0 <= q < j + 1 && #[trigger] okeys.take(j + 1)[q] == k;
                        if q < j {
                            assert(okeys.take(j as int)[q] == k);
                        }
                    }
                    if okeys.take(j as int).contains(k) {
                        let q = choose|q: int| 0 <= q < j && #[trigger] okeys.take(j as int)[q] == k;
                        assert(okeys.take(j + 1)[q] == k);
                    }
                    assert(okeys.take(j + 1)[j as int] == name@);
                }
                j = j + 1;
            }
            assert(okeys.take(m as int) == okeys);
            let layout = node.layout.merged_with(&o.layout);
            let style = merge_style(&node.style, &o.style);
            ResolvedNode { node_id: node.id.copy(), variant, properties, layout, style }
        },
        None => {
            ResolvedNode {
                node_id: node.id.copy(),
                variant,
                properties,
                layout: node.layout.copy(),
                style: node.style.copy(),
            }
        },
    }
}

/// One inspector row before it is filtered: path rank, path name, base
/// value, override value, and whether the override declares the field.
pub type InspectorCandidate = (int, Seq<char>, Option<PropertyValue>, Option<PropertyValue>, bool);

/// A length as a property value.
pub open spec fn length_value(l: Option<Length>) -> Option<PropertyValue> {
    match l {
        Some(x) => Some(PropertyValue::Length(x)),
        None => None,
    }
}

/// A paint as a property value: colors and tokens; no paint has no value.
pub open spec fn paint_value_of(p: Option<Paint>) -> Option<PropertyValue> {
    match p {
        Some(Paint::Color(c)) => Some(PropertyValue::Color(c)),
        Some(Paint::Token(t)) => Some(PropertyValue::Token(t)),
        _ => None,
    }
}

/// An opacity string as a property value.
pub open spec fn opacity_value(o: Option<String>) -> Option<PropertyValue> {
    match o {
        Some(x) => Some(PropertyValue::String(x)),
        None => None,
    }
}

/// The layout and style rows of the inspector, in path order.
pub open spec fn inspector_candidates(node: DesignNode, ov: Option<ResponsiveNodeOverride>) -> Seq<InspectorCandidate> {
    let l = node.layout;
    let st = node.style;
    match ov {
        Some(o) => seq![
            (1, "gap"@, length_value(l.gap), length_value(o.layout.gap), o.layout.gap is Some),
            (1, "height"@, length_value(l.height), length_value(o.layout.height), o.layout.height is Some),
            (1, "padding"@, length_value(l.padding), length_value(o.layout.padding), o.layout.padding is Some),
            (1, "width"@, length_value(l.width), length_value(o.layout.width), o.layout.width is Some),
            (2, "background"@, paint_value_of(st.background), paint_value_of(o.style.background), o.style.background is Some),
            (2, "border_color"@, paint_value_of(st.border_color), paint_value_of(o.style.border_color), o.style.border_color is Some),
            (2, "border_width"@, length_value(st.border_width), length_value(o.style.border_width), o.style.border_width is Some),
            (2, "corner_radius"@, length_value(st.corner_radius), length_value(o.style.corner_radius), o.style.corner_radius is Some),
            (2, "foreground"@, paint_value_of(st.foreground), paint_value_of(o.style.foreground), o.style.foreground is Some),
            (2, "opacity"@, opacity_value(st.opacity), opacity_value(o.style.opacity), o.style.opacity is Some),
        ],
        None => seq![
            (1, "gap"@, length_value(l.gap), None, false),
            (1, "height"@, length_value(l.height), None, false),
            (1, "padding"@, length_value(l.padding), None, false),
            (1, "width"@, length_value(l.width), None, false),
            (2, "background"@, paint_value_of(st.background), None, false),
            (2, "border_color"@, paint_value_of(st.border_color), None, false),
            (2, "border_width"@, length_value(st.border_width), None, false),
            (2, "corner_radius"@, length_value(st.corner_radius), None, false),
            (2, "foreground"@, paint_value_of(st.foreground), None, false),
            (2, "opacity"@, opacity_value(st.opacity), None, false),
        ],
    }
}

/// The candidates with a base or an override value, in order.
pub open spec fn present_candidates(cs: Seq<InspectorCandidate>) -> Seq<InspectorCandidate>
    decreases cs.len(),
{
    if cs.len() == 0 {
        Seq::empty()
    } else {
        let prev = present_candidates(cs.drop_last());
        let c = cs.last();
        if c.2 is Some || c.3 is Some {
            prev.push(c)
        } else {
            prev
        }
    }
}

/// Whether `p` is the inspector row of candidate `c`: the override value when
/// there is one, else the base value; breakpoint provenance when the
/// override declares the field.
pub open spec fn row_is(p: PropertyProvenance, node: DesignNode, variant: Option<ResponsiveVariantId>, c: InspectorCandidate) -> bool {
    &&& p.node_id == node.id
    &&& path_rank(p.path) == c.0
    &&& path_name(p.path) == c.1
    &&& p.value == crate::model::or_else(c.3, c.2)
    &&& if c.4 {
        breakpoint_of(p.provenance, variant)
    } else {
        p.provenance == BreakpointProvenance::Base
    }
}

/// Whether one of the first `p` rows is the property named `k`.
pub open spec fn lists_property(rows: Seq<PropertyProvenance>, p: int, k: Seq<char>) -> bool {
    exists|j: int| 0 <= j < p && path_name((#[trigger] rows[j]).path) == k
}

/// Whether `rows` is the inspector listing of `node` under `variant`: its
/// resolved properties in name order, then its present layout and style
/// rows in path order.
pub open spec fn inspected(rows: Seq<PropertyProvenance>, node: DesignNode, variant: Option<ResponsiveVariantId>) -> bool {
    let ov = override_for(node, variant);
    let c = present_candidates(inspector_candidates(node, ov));
    let p = rows.len() - c.len();
    &&& rows.len() >= c.len()
    &&& forall|j: int| 0 <= j < p ==> path_rank((#[trigger] rows[j]).path) == 0 && property_resolved(rows[j], node, variant, path_name(rows[j].path))
    &&& forall|a: int, b: int| 0 <= a < b < p ==> chars_before(path_name((#[trigger] rows[a]).path), path_name((#[trigger] rows[b]).path))
    &&& forall|k: Seq<char>|
        #![trigger lists_property(rows, p, k)]
        #![trigger node.properties@.contains_key(k)]
        #![trigger overrides_property(ov, k)]
        (node.properties@.contains_key(k) || overrides_property(ov, k)) <==> lists_property(rows, p, k)
    &&& forall|m: int| 0 <= m < c.len() ==> row_is(#[trigger] rows[p + m], node, variant, c[m])
}

fn length_pv(l: &Option<Length>) -> (r: Option<PropertyValue>)
    ensures
        r == length_value(*l),
{
    match l {
        Some(x) => Some(PropertyValue::Length(x.copy())),
        None => None,
    }
}

fn paint_pv(p: &Option<Paint>) -> (r: Option<PropertyValue>)
    ensures
        r == paint_value_of(*p),
{
    match p {
        Some(Paint::Color(c)) => Some(PropertyValue::Color(c.copy())),
        Some(Paint::Token(t)) => Some(PropertyValue::Token(t.copy())),
        _ => None,
    }
}

fn opacity_pv(o: &Option<String>) -> (r: Option<PropertyValue>)
    ensures
        r == opacity_value(*o),
{
    match o {
        Some(x) => Some(PropertyValue::String(x.clone())),
        None => None,
    }
}

/// Whether an exec candidate carries the path, values and flag of `c`.
pub open spec fn cand_ok(x: (PropertyPath, Option<PropertyValue>, Option<PropertyValue>, bool), c: InspectorCandidate) -> bool {
    &&& path_rank(x.0) == c.0
    &&& path_name(x.0) == c.1
    &&& x.1 == c.2
    &&& x.2 == c.3
    &&& x.3 == c.4
}

proof fn lemma_candidates_shape(node: DesignNode, ov: Option<ResponsiveNodeOverride>, m: int)
    requires
        0 <= m < 10,
    ensures
        inspector_candidates(node, ov).len() == 10,
        ov is None ==> !inspector_candidates(node, ov)[m].4 && inspector_candidates(node, ov)[m].3 is None,
{
}

/// The exec form of the inspector candidates.
#[verifier::rlimit(50)]
fn candidates(node: &DesignNode, ov: Option<&ResponsiveNodeOverride>) -> (r: Vec<(PropertyPath, Option<PropertyValue>, Option<PropertyValue>, bool)>)
    ensures
        r@.len() == 10,
        forall|m: int| 0 <= m < 10 ==> cand_ok(#[trigger] r@[m], inspector_candidates(*node, match ov {
            Some(o) => Some(*o),
            None => None,
        })[m]),
{
    let l = &node.layout;
    let st = &node.style;
    let mut out: Vec<(PropertyPath, Option<PropertyValue>, Option<PropertyValue>, bool)> = Vec::new();
    match ov {
        Some(o) => {
            out.push((PropertyPath::Layout(String::from_str("gap")), length_pv(&l.gap), length_pv(&o.layout.gap), o.layout.gap.is_some()));
            out.push((PropertyPath::Layout(String::from_str("height")), length_pv(&l.height), length_pv(&o.layout.height), o.layout.height.is_some()));
            out.push((PropertyPath::Layout(String::from_str("padding")), length_pv(&l.padding), length_pv(&o.layout.padding), o.layout.padding.is_some()));
            out.push((PropertyPath::Layout(String::from_str("width")), length_pv(&l.width), length_pv(&o.layout.width), o.layout.width.is_some()));
            out.push((PropertyPath::Style(String::from_str("background")), paint_pv(&st.background), paint_pv(&o.style.background), o.style.background.is_some()));
            out.push((PropertyPath::Style(String::from_str("border_color")), paint_pv(&st.border_color), paint_pv(&o.style.border_color), o.style.border_color.is_some()));
            out.push((PropertyPath::Style(String::from_str("border_width")), length_pv(&st.border_width), length_pv(&o.style.border_width), o.style.border_width.is_some()));
            out.push((PropertyPath::Style(String::from_str("corner_radius")), length_pv(&st.corner_radius), length_pv(&o.style.corner_radius), o.style.corner_radius.is_some()));
            out.push((PropertyPath::Style(String::from_str("foreground")), paint_pv(&st.foreground), paint_pv(&o.style.foreground), o.style.foreground.is_some()));
            out.push((PropertyPath::Style(String::from_str("opacity")), opacity_pv(&st.opacity), opacity_pv(&o.style.opacity), o.style.opacity.is_some()));
        },
        None => {
            out.push((PropertyPath::Layout(String::from_str("gap")), length_pv(&l.gap), None, false));
            out.push((PropertyPath::Layout(String::from_str("height")), length_pv(&l.height), None, false));
            out.push((PropertyPath::Layout(String::from_str("padding")), length_pv(&l.padding), None, false));
            out.push((PropertyPath::Layout(String::from_str("width")), length_pv(&l.width), None, false));
            out.push((PropertyPath::Style(String::from_str("background")), paint_pv(&st.background), None, false));
            out.push((PropertyPath::Style(String::from_str("border_color")), paint_pv(&st.border_color), None, false));
            out.push((PropertyPath::Style(String::from_str("border_width")), length_pv(&st.border_width), None, false));
            out.push((PropertyPath::Style(String::from_str("corner_radius")), length_pv(&st.corner_radius), None, false));
            out.push((PropertyPath::Style(String::from_str("foreground")), paint_pv(&st.foreground), None, false));
            out.push((PropertyPath::Style(String::from_str("opacity")), opacity_pv(&st.opacity), None, false));
        },
    }
    proof {
        let ovs = match ov {
            Some(o) => Some(*o),
            None => None,
        };
        let c = inspector_candidates(*node, ovs);
        assert forall|m: int| 0 <= m < 10 implies cand_ok(#[trigger] out@[m], c[m]) by {
            if m == 0 {} else if m == 1 {} else if m == 2 {} else if m == 3 {} else if m == 4 {}
            else if m == 5 {} else if m == 6 {} else if m == 7 {} else if m == 8 {} else {}
        }
    }
    out
}

/// Return the resolved inspector entries in deterministic path order.
pub fn inspect_node(design: &StudioDesign, node: &DesignNode, profile: &DeviceProfile) -> (r: Vec<PropertyProvenance>)
    ensures
        exists|variant: Option<ResponsiveVariantId>| #[trigger] selected(design, *profile, variant) && inspected(r@, *node, variant),
{
    let resolved = resolve_node(design, node, profile);
    let variant = resolved.variant;
    let ghost props = resolved.properties;
    resolved.properties.reveal_entries();
    let mut rows = resolved.properties.into_values();
    let ghost p: int = rows@.len() as int;
    let ov: Option<&ResponsiveNodeOverride> = match &variant {
        Some(id) => node.responsive_overrides.get(id.as_str()),
        None => None,
    };
    let ghost ovs = match ov {
        Some(o) => Some(*o),
        None => None,
    };
    assert(ovs == override_for(*node, variant));
    let mut cands = candidates(node, ov);
    let ghost spec_c = inspector_candidates(*node, ovs);
    let ghost all = cands@;
    let ghost mut m: int = 0;
    while cands.len() > 0
        invariant
            0 <= m <= all.len(),
            all.len() == spec_c.len(),
            cands@ == all.subrange(m, all.len() as int),
            forall|t: int| 0 <= t < all.len() ==> cand_ok(#[trigger] all[t], spec_c[t]),
            ovs == override_for(*node, variant),
            spec_c == inspector_candidates(*node, ovs),
            rows@.len() == p + present_candidates(spec_c.take(m)).len(),
            p == props.entry_seq().len(),
            forall|j: int| 0 <= j < p ==> rows@[j] == props.entry_seq()[j].1,
            forall|t: int| 0 <= t < present_candidates(spec_c.take(m)).len() ==> row_is(#[trigger] rows@[p + t], *node, variant, present_candidates(spec_c.take(m))[t]),
        decreases cands@.len(),
    {
        assert(spec_c.take(m + 1).drop_last() == spec_c.take(m));
        assert(spec_c.take(m + 1).last() == spec_c[m]);
        assert(cands@[0] == all[m]);
        let (path, base, over, overridden) = cands.remove(0);
        let ghost before = rows@;
        proof {
            lemma_candidates_shape(*node, ovs, m);
        }
        if base.is_some() || over.is_some() {
            let value = match over {
                Some(v) => Some(v),
                None => base,
            };
            let row = PropertyProvenance {
                node_id: node.id.copy(),
                path,
                value,
                provenance: if overridden {
                    match &variant {
                        Some(id) => BreakpointProvenance::Breakpoint(id.copy()),
                        None => BreakpointProvenance::Base,
                    }
                } else {
                    BreakpointProvenance::Base
                },
            };
            proof {
                lemma_candidates_shape(*node, ovs, m);
                if overridden {
                    assert(ovs is Some);
                    assert(variant is Some);
                }
            }
            rows.push(row);
            assert(row_is(rows@[p + present_candidates(spec_c.take(m)).len() as int], *node, variant, spec_c[m]));
        }
        proof {
            let old_pc = present_candidates(spec_c.take(m));
            let new_pc = present_candidates(spec_c.take(m + 1));
            assert forall|t: int| 0 <= t < new_pc.len() implies row_is(#[trigger] rows@[p + t], *node, variant, new_pc[t]) by {
                if t < old_pc.len() {
                    assert(rows@[p + t] == before[p + t]);
                    assert(new_pc[t] == old_pc[t]);
                }
            }
            m = m + 1;
        }
    }
    assert(spec_c.take(m) == spec_c);
    proof {
        let props_map = props;
        assert forall|j: int| 0 <= j < p implies path_rank((#[trigger] rows@[j]).path) == 0 && property_resolved(rows@[j], *node, variant, path_name(rows@[j].path)) by {
            let key = props.entry_seq()[j].0.key_view();
            assert(props@[key] == props.entry_seq()[j].1);
            assert(props@.contains_key(key)) by {
                assert(props.key_seq()[j] == key);
            }
        }
        assert forall|a: int, b: int| 0 <= a < b < p implies chars_before(path_name((#[trigger] rows@[a]).path), path_name((#[trigger] rows@[b]).path)) by {
            let ka = props.entry_seq()[a].0.key_view();
            let kb = props.entry_seq()[b].0.key_view();
            assert(props@[ka] == props.entry_seq()[a].1);
            assert(props@[kb] == props.entry_seq()[b].1);
            assert(props@.contains_key(ka)) by { assert(props.key_seq()[a] == ka); }
            assert(props@.contains_key(kb)) by { assert(props.key_seq()[b] == kb); }
            assert(props.key_seq()[a] == ka);
            assert(props.key_seq()[b] == kb);
        }
        assert forall|k: Seq<char>| (node.properties@.contains_key(k) || overrides_property(ovs, k)) implies lists_property(rows@, p, k) by {
            assert(props@.contains_key(k));
            let j = props.key_seq().index_of(k);
            assert(props.key_seq()[j] == k);
            assert(props.entry_seq()[j].0.key_view() == k);
            assert(props@[k] == props.entry_seq()[j].1);
            assert(path_name(rows@[j].path) == k);
        }
        assert forall|k: Seq<char>| lists_property(rows@, p, k) implies (node.properties@.contains_key(k) || overrides_property(ovs, k)) by {
            let j = choose|j: int| 0 <= j < p && path_name((#[trigger] rows@[j]).path) == k;
            let key = props.entry_seq()[j].0.key_view();
            assert(props@[key] == props.entry_seq()[j].1);
            assert(props@.contains_key(key)) by { assert(props.key_seq()[j] == key); }
        }
        let c = present_candidates(inspector_candidates(*node, override_for(*node, variant)));
        assert(rows@.len() >= c.len());
        assert(rows@.len() - c.len() == p);
        assert(forall|m: int| 0 <= m < c.len() ==> row_is(#[trigger] rows@[p + m], *node, variant, c[m]));
        let ov2 = override_for(*node, variant);
        assert(forall|j: int| 0 <= j < p ==> path_rank((#[trigger] rows@[j]).path) == 0 && property_resolved(rows@[j], *node, variant, path_name(rows@[j].path)));
        assert(forall|a: int, b: int| 0 <= a < b < p ==> chars_before(path_name((#[trigger] rows@[a]).path), path_name((#[trigger] rows@[b]).path)));
        assert forall|k: Seq<char>|
            #![trigger lists_property(rows@, p, k)]
            #![trigger node.properties@.contains_key(k)]
            #![trigger overrides_property(ov2, k)]
            (node.properties@.contains_key(k) || overrides_property(ov2, k)) <==> lists_property(rows@, p, k) by {
            if node.properties@.contains_key(k) || overrides_property(ov2, k) {
                assert(props@.contains_key(k));
                let j = props.key_seq().index_of(k);
                assert(props.key_seq()[j] == k);
                assert(props.entry_seq()[j].0.key_view() == k);
                assert(props@[k] == props.entry_seq()[j].1);
                assert(path_name(rows@[j].path) == k);
                assert(lists_property(rows@, p, k));
            }
            if lists_property(rows@, p, k) {
                assert(node.properties@.contains_key(k) || overrides_property(ovs, k));
            }
        }
        assert(inspected(rows@, *node, variant));
    }
    rows
}

/// One profile-to-profile difference for a selected node.
#[derive(Clone, Debug, PartialEq)]
pub struct ProfileDifference {
    pub path: PropertyPath,
    pub left: Option<PropertyValue>,
    pub right: Option<PropertyValue>,
    pub left_provenance: BreakpointProvenance,
    pub right_provenance: BreakpointProvenance,
    pub unintended: bool,
}

/// Deterministic side-by-side comparison result.
#[derive(Clone, Debug, PartialEq)]
pub struct CompareReport {
    pub node_id: NodeId,
    pub left_profile: DeviceProfileId,
    pub right_profile: DeviceProfileId,
    pub differences: Vec<ProfileDifference>,
}

/// The ordering key of a path: its kind's digit, a colon, and its name.
pub open spec fn path_key(p: PropertyPath) -> Seq<char> {
    let d = match p {
        PropertyPath::Property(_) => '0',
        PropertyPath::Layout(_) => '1',
        PropertyPath::Style(_) => '2',
    };
    seq![d, ':'] + path_name(p)
}

fn path_key_of(p: &PropertyPath) -> (r: String)
    ensures
        r@ == path_key(*p),
{
    let (mut k, name) = match p {
        PropertyPath::Property(s) => (String::from_str("0:"), s.as_str()),
        PropertyPath::Layout(s) => (String::from_str("1:"), s.as_str()),
        PropertyPath::Style(s) => (String::from_str("2:"), s.as_str()),
    };
    proof {
        reveal_strlit("0:");
        reveal_strlit("1:");
        reveal_strlit("2:");
    }
    k.append(name);
    k
}

/// Inspector rows by path key, a later row replacing an earlier one.
pub open spec fn rows_by_key(rows: Seq<PropertyProvenance>) -> Map<Seq<char>, PropertyProvenance>
    decreases rows.len(),
{
    if rows.len() == 0 {
        Map::empty()
    } else {
        rows_by_key(rows.drop_last()).insert(path_key(rows.last().path), rows.last())
    }
}

/// Optional values equal by structure.
pub open spec fn opt_value_eq(a: Option<PropertyValue>, b: Option<PropertyValue>) -> bool {
    match a {
        Some(x) => b matches Some(y) && crate::model::value_eq(x, y),
        None => b is None,
    }
}

/// Whether the rows of one path differ between two profiles: present on one
/// side only, or present on both with unequal values.
pub open spec fn rows_differ(l: Option<PropertyProvenance>, r: Option<PropertyProvenance>) -> bool {
    match l {
        Some(a) => match r {
            Some(b) => !opt_value_eq(a.value, b.value),
            None => true,
        },
        None => r is Some,
    }
}

/// The value of an optional row.
pub open spec fn row_value(l: Option<PropertyProvenance>) -> Option<PropertyValue> {
    match l {
        Some(a) => a.value,
        None => None,
    }
}

/// The provenance of an optional row, base when absent.
pub open spec fn row_provenance(l: Option<PropertyProvenance>) -> BreakpointProvenance {
    match l {
        Some(a) => a.provenance,
        None => BreakpointProvenance::Base,
    }
}

/// Whether `d` reports the rows `l` and `r` of one path: their values and
/// provenances, and unintended when neither side comes from a breakpoint.
pub open spec fn difference_is(d: ProfileDifference, l: Option<PropertyProvenance>, r: Option<PropertyProvenance>) -> bool {
    &&& d.path == match l {
        Some(a) => a.path,
        None => r->0.path,
    }
    &&& d.left == row_value(l)
    &&& d.right == row_value(r)
    &&& d.left_provenance == row_provenance(l)
    &&& d.right_provenance == row_provenance(r)
    &&& d.unintended == (row_provenance(l) == BreakpointProvenance::Base && row_provenance(r) == BreakpointProvenance::Base)
}

/// An optional map entry.
pub open spec fn entry_of(m: Map<Seq<char>, PropertyProvenance>, k: Seq<char>) -> Option<PropertyProvenance> {
    if m.contains_key(k) {
        Some(m[k])
    } else {
        None
    }
}

/// Whether `diffs` compares the rows `lm` and `rm`: one difference per
/// differing path, in path-key order.
pub open spec fn compared(diffs: Seq<ProfileDifference>, lm: Map<Seq<char>, PropertyProvenance>, rm: Map<Seq<char>, PropertyProvenance>) -> bool {
    &&& forall|a: int, b: int| 0 <= a < b < diffs.len() ==> chars_before(path_key((#[trigger] diffs[a]).path), path_key((#[trigger] diffs[b]).path))
    &&& forall|a: int| 0 <= a < diffs.len() ==> difference_is(#[trigger] diffs[a], entry_of(lm, path_key(diffs[a].path)), entry_of(rm, path_key(diffs[a].path)))
    &&& forall|k: Seq<char>|
        #![trigger lm.contains_key(k)]
        #![trigger rm.contains_key(k)]
        (lm.contains_key(k) || rm.contains_key(k)) && rows_differ(entry_of(lm, k), entry_of(rm, k)) ==> exists|a: int| 0 <= a < diffs.len() && path_key((#[trigger] diffs[a]).path) == k
}

fn rows_map(rows: Vec<PropertyProvenance>) -> (r: OrderedMap<String, PropertyProvenance>)
    ensures
        r@ == rows_by_key(rows@),
        forall|k: Seq<char>| #[trigger] r@.contains_key(k) ==> path_key(r@[k].path) == k,
{
    let ghost all = rows@;
    let mut rows = rows;
    let mut out: OrderedMap<String, PropertyProvenance> = OrderedMap::new();
    let ghost mut m: int = 0;
    assert(all.take(0) =~= Seq::<PropertyProvenance>::empty());
    while rows.len() > 0
        invariant
            0 <= m <= all.len(),
            rows@ == all.subrange(m, all.len() as int),
            out@ == rows_by_key(all.take(m)),
            forall|k: Seq<char>| #[trigger] out@.contains_key(k) ==> path_key(out@[k].path) == k,
        decreases rows@.len(),
    {
        assert(all.take(m + 1).drop_last() == all.take(m));
        assert(all.take(m + 1).last() == all[m]);
        let row = rows.remove(0);
        let key = path_key_of(&row.path);
        out.insert(key, row);
        proof {
            m = m + 1;
        }
    }
    assert(all.take(m) == all);
    out
}

fn opt_values_equal(a: &Option<PropertyValue>, b: &Option<PropertyValue>) -> (r: bool)
    ensures
        r == opt_value_eq(*a, *b),
{
    match a {
        Some(x) => match b {
            Some(y) => x.equals(y),
            None => false,
        },
        None => b.is_none(),
    }
}

fn is_base(p: &BreakpointProvenance) -> (r: bool)
    ensures
        r == (*p == BreakpointProvenance::Base),
{
    match p {
        BreakpointProvenance::Base => true,
        _ => false,
    }
}

/// The differences between the inspector rows of two profiles.
fn differences_of(left: Vec<PropertyProvenance>, right: Vec<PropertyProvenance>) -> (r: Vec<ProfileDifference>)
    ensures
        compared(r@, rows_by_key(left@), rows_by_key(right@)),
{
    let mut lm = rows_map(left);
    let mut rm = rows_map(right);
    let ghost lm0 = lm@;
    let ghost rm0 = rm@;
    let mut out: OrderedMap<String, ProfileDifference> = OrderedMap::new();
    lm.reveal_entries();
    let ghost lkeys = lm.key_seq();
    let n = lm.len();
    let mut keys: Vec<String> = Vec::new();
    let mut i: usize = 0;
    while i < n
        invariant
            i <= n,
            n == lm.entry_seq().len(),
            keys@.len() == i,
            forall|j: int| 0 <= j < i ==> (#[trigger] keys@[j])@ == lm.key_seq()[j],
        decreases n - i,
    {
        keys.push(lm.key_at(i).clone());
        i = i + 1;
    }
    let mut i: usize = 0;
    while i < n
        invariant
            i <= n,
            n == keys@.len(),
            n == lkeys.len(),
            forall|j: int| 0 <= j < n ==> (#[trigger] keys@[j])@ == lkeys[j],
            crate::ordered_map::strictly_sorted(lkeys),
            forall|q: Seq<char>| #[trigger] lm0.contains_key(q) <==> lkeys.contains(q),
            forall|k: Seq<char>| #[trigger] lm0.contains_key(k) ==> path_key(lm0[k].path) == k,
            forall|k: Seq<char>| #[trigger] rm0.contains_key(k) ==> path_key(rm0[k].path) == k,
            forall|k: Seq<char>| #[trigger] lm@.contains_key(k) <==> (lm0.contains_key(k) && !lkeys.take(i as int).contains(k)),
            forall|k: Seq<char>| #[trigger] lm@.contains_key(k) ==> lm@[k] == lm0[k],
            forall|k: Seq<char>| #[trigger] rm@.contains_key(k) <==> (rm0.contains_key(k) && !lkeys.take(i as int).contains(k)),
            forall|k: Seq<char>| #[trigger] rm@.contains_key(k) ==> rm@[k] == rm0[k],
            forall|k: Seq<char>| #[trigger] out@.contains_key(k) ==> lkeys.take(i as int).contains(k) && path_key(out@[k].path) == k
                && difference_is(out@[k], entry_of(lm0, k), entry_of(rm0, k)),
            forall|k: Seq<char>| lkeys.take(i as int).contains(k) && rows_differ(entry_of(lm0, k), entry_of(rm0, k)) ==> #[trigger] out@.contains_key(k),
        decreases n - i,
    {
        let key = &keys[i];
        assert(lkeys.contains(key@)) by { assert(lkeys[i as int] == key@); }
        assert(!lkeys.take(i as int).contains(key@)) by {
            if lkeys.take(i as int).contains(key@) {
                let q = choose|q: int| 0 <= q < i && #[trigger] lkeys.take(i as int)[q] == key@;
                assert(lkeys[q] == lkeys[i as int]);
                crate::ordered_map::lemma_sorted_distinct(lkeys, q, i as int);
            }
        }
        let lrow = lm.remove(key.as_str());
        let rrow = rm.remove(key.as_str());
        match lrow {
            Some(l) => {
                let differ = match &rrow {
                    Some(r) => !opt_values_equal(&l.value, &r.value),
                    None => true,
                };
                if differ {
                    let unintended = is_base(&l.provenance) && match &rrow {
                        Some(r) => is_base(&r.provenance),
                        None => true,
                    };
                    let (right_value, right_provenance) = match rrow {
                        Some(r) => (r.value, r.provenance),
                        None => (None, BreakpointProvenance::Base),
                    };
                    let d = ProfileDifference {
                        path: l.path,
                        left: l.value,
                        right: right_value,
                        left_provenance: l.provenance,
                        right_provenance,
                        unintended,
                    };
                    out.insert(key.clone(), d);
                }
            },
            None => {},
        }
        assert forall|k: Seq<char>| lkeys.take(i + 1).contains(k) <==> (lkeys.take(i as int).contains(k) || k == key@) by {
            if lkeys.take(i + 1).contains(k) {
                let q = choose|q: int| 0 <= q < i + 1 && #[trigger] lkeys.take(i + 1)[q] == k;
                if q < i {
                    assert(lkeys.take(i as int)[q] == k);
                }
            }
            if lkeys.take(i as int).contains(k) {
                let q = choose|q: int| 0 <= q < i && #[trigger] lkeys.take(i as int)[q] == k;
                assert(lkeys.take(i + 1)[q] == k);
            }
            assert(lkeys.take(i + 1)[i as int] == key@);
        }
        i = i + 1;
    }
    assert(lkeys.take(n as int) == lkeys);
    rm.reveal_entries();
    let ghost rkeys = rm.key_seq();
    let ghost rm1 = rm@;
    let mut rest = rm.into_values();
    let ghost all = rest@;
    assert(all.len() == rkeys.len());
    let ghost mut j: int = 0;
    while rest.len() > 0
        invariant
            0 <= j <= all.len(),
            all.len() == rkeys.len(),
            rest@ == all.subrange(j, all.len() as int),
            forall|t: int| 0 <= t < all.len() ==> #[trigger] all[t] == rm1[rkeys[t]],
            forall|q: Seq<char>| #[trigger] rm1.contains_key(q) <==> rkeys.contains(q),
            forall|k: Seq<char>| #[trigger] rm1.contains_key(k) <==> (rm0.contains_key(k) && !lkeys.contains(k)),
            forall|k: Seq<char>| #[trigger] rm1.contains_key(k) ==> rm1[k] == rm0[k],
            forall|q: Seq<char>| #[trigger] lm0.contains_key(q) <==> lkeys.contains(q),
            forall|k: Seq<char>| #[trigger] rm0.contains_key(k) ==> path_key(rm0[k].path) == k,
            forall|k: Seq<char>| #[trigger] out@.contains_key(k) ==> path_key(out@[k].path) == k
                && difference_is(out@[k], entry_of(lm0, k), entry_of(rm0, k)),
            forall|k: Seq<char>| lkeys.contains(k) && rows_differ(entry_of(lm0, k), entry_of(rm0, k)) ==> #[trigger] out@.contains_key(k),
            forall|k: Seq<char>| rkeys.take(j).contains(k) ==> #[trigger] out@.contains_key(k),
        decreases rest@.len(),
    {
        assert(rest@[0] == all[j]);
        let ghost k = rkeys[j];
        assert(rkeys.contains(k));
        let row = rest.remove(0);
        assert(rm1.contains_key(k));
        assert(rm0.contains_key(k));
        assert(!lm0.contains_key(k));
        assert(row == all[j]);
        assert(row == rm0[k]);
        let key = path_key_of(&row.path);
        assert(key@ == k);
        let unintended = is_base(&row.provenance);
        let d = ProfileDifference {
            path: row.path,
            left: None,
            right: row.value,
            left_provenance: BreakpointProvenance::Base,
            right_provenance: row.provenance,
            unintended,
        };
        out.insert(key, d);
        assert forall|q: Seq<char>| rkeys.take(j + 1).contains(q) implies #[trigger] out@.contains_key(q) by {
            let t = choose|t: int| 0 <= t < j + 1 && #[trigger] rkeys.take(j + 1)[t] == q;
            if t < j {
                assert(rkeys.take(j)[t] == q);
            }
        }
        proof {
            j = j + 1;
        }
    }
    assert(rkeys.take(j) == rkeys);
    out.reveal_entries();
    let r = out.into_values();
    proof {
        let es = out.entry_seq();
        assert forall|a: int| 0 <= a < r@.len() implies path_key((#[trigger] r@[a]).path) == es[a].0@ by {
            assert(out@.contains_key(es[a].0@)) by { assert(out.key_seq()[a] == es[a].0@); }
            assert(out@[es[a].0.key_view()] == es[a].1);
        }
        assert forall|a: int, b: int| 0 <= a < b < r@.len() implies chars_before(path_key((#[trigger] r@[a]).path), path_key((#[trigger] r@[b]).path)) by {
            assert(out.key_seq()[a] == es[a].0@);
            assert(out.key_seq()[b] == es[b].0@);
        }
        assert forall|a: int| 0 <= a < r@.len() implies difference_is(#[trigger] r@[a], entry_of(lm0, path_key(r@[a].path)), entry_of(rm0, path_key(r@[a].path))) by {
            assert(out@.contains_key(es[a].0@)) by { assert(out.key_seq()[a] == es[a].0@); }
            assert(out@[es[a].0.key_view()] == es[a].1);
        }
        assert forall|k: Seq<char>|
            #![trigger lm0.contains_key(k)]
            #![trigger rm0.contains_key(k)]
            (lm0.contains_key(k) || rm0.contains_key(k)) && rows_differ(entry_of(lm0, k), entry_of(rm0, k)) implies exists|a: int| 0 <= a < r@.len() && path_key((#[trigger] r@[a]).path) == k by {
            if !lkeys.contains(k) {
                assert(rm1.contains_key(k));
                assert(rkeys.contains(k));
            }
            assert(out@.contains_key(k));
            let a = out.key_seq().index_of(k);
            assert(out.key_seq()[a] == k);
            assert(path_key(r@[a].path) == es[a].0@);
        }
    }
    r
}

/// Compare authored properties and report differences without mutating
/// state: for each inspector path of either profile whose rows differ, one
/// difference in path order.
pub fn compare_profiles(design: &StudioDesign, node: &DesignNode, left: &DeviceProfile, right: &DeviceProfile) -> (r: CompareReport)
    ensures
        r.node_id == node.id,
        r.left_profile == left.id,
        r.right_profile == right.id,
        exists|ls: Seq<PropertyProvenance>, rs: Seq<PropertyProvenance>, lv: Option<ResponsiveVariantId>, rv: Option<ResponsiveVariantId>|
            #![trigger inspected(ls, *node, lv), inspected(rs, *node, rv)]
            selected(design, *left, lv) && inspected(ls, *node, lv) && selected(design, *right, rv) && inspected(rs, *node, rv)
                && compared(r.differences@, rows_by_key(ls), rows_by_key(rs)),
{
    let left_rows = inspect_node(design, node, left);
    let right_rows = inspect_node(design, node, right);
    let ghost ls = left_rows@;
    let ghost rs = right_rows@;
    let differences = differences_of(left_rows, right_rows);
    let r = CompareReport {
        node_id: node.id.copy(),
        left_profile: left.id.copy(),
        right_profile: right.id.copy(),
        differences,
    };
    proof {
        let lv = choose|v: Option<ResponsiveVariantId>| #[trigger] selected(design, *left, v) && inspected(ls, *node, v);
        let rv = choose|v: Option<ResponsiveVariantId>| #[trigger] selected(design, *right, v) && inspected(rs, *node, v);
        assert(selected(design, *left, lv) && inspected(ls, *node, lv) && selected(design, *right, rv) && inspected(rs, *node, rv)
            && compared(r.differences@, rows_by_key(ls), rows_by_key(rs)));
    }
    r
}

} // verus!
