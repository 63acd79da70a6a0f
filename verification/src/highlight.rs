//! The highlight table: a growable map from small integer highlight-group
//! ids to color and style attributes, with a distinguished default entry.
//!
//! A stored attribute never bakes the default colors in: an absent channel is
//! resolved against the default in force at lookup time, so redefining the
//! default retroactively affects every group that inherits it.

use crate::events::{rgb_attr_empty, HighlightAttr, RgbAttr};
use vstd::prelude::*;

verus! {

/// The highlight table.
#[derive(Debug)]
pub struct HighlightGroups {
    groups: Vec<RgbAttr>,
    default: RgbAttr,
}

/// Spec-level value of a [`HighlightGroups`].
pub struct HighlightGroupsV {
    /// The stored attribute of each defined id.
    pub groups: Seq<RgbAttr>,
    /// The attribute absent channels inherit from.
    pub default: RgbAttr,
}

impl View for HighlightGroups {
    type V = HighlightGroupsV;

    closed spec fn view(&self) -> HighlightGroupsV {
        HighlightGroupsV { groups: self.groups@, default: self.default }
    }
}

/// The table after `define(id, attr)`: the entry for `id` is replaced, the
/// backing array grows as needed, and any gap opened by the growth holds the
/// empty attribute, which inherits every channel from the current default at
/// lookup time.
pub open spec fn spec_define(v: HighlightGroupsV, id: u64, attr: RgbAttr) -> HighlightGroupsV {
    let len = if id + 1 > v.groups.len() {
        id + 1
    } else {
        v.groups.len() as int
    };
    HighlightGroupsV {
        groups: Seq::new(
            len as nat,
            |j: int|
                if j == id {
                    attr
                } else if j < v.groups.len() {
                    v.groups[j]
                } else {
                    rgb_attr_empty()
                },
        ),
        default: v.default,
    }
}

/// The table after each definition of `attrs` is applied in order.
pub open spec fn spec_update(v: HighlightGroupsV, attrs: Seq<HighlightAttr>) -> HighlightGroupsV
    decreases attrs.len(),
{
    if attrs.len() == 0 {
        v
    } else {
        spec_update(spec_define(v, attrs[0].id, attrs[0].rgb_attr), attrs.drop_first())
    }
}

/// The attribute to use for the group `hl_id`: the stored entry with each
/// absent channel filled from the current default, then foreground and
/// background switched when the group asks for reverse video. An id beyond
/// the table returns the default attribute: the editor may reference a group
/// before its definition has arrived.
pub open spec fn spec_resolve(v: HighlightGroupsV, hl_id: u64) -> RgbAttr {
    if hl_id < v.groups.len() {
        let hl = v.groups[hl_id as int];
        let filled = RgbAttr {
            foreground: if hl.foreground is Some {
                hl.foreground
            } else {
                v.default.foreground
            },
            background: if hl.background is Some {
                hl.background
            } else {
                v.default.background
            },
            special: if hl.special is Some {
                hl.special
            } else {
                v.default.special
            },
            ..hl
        };
        if filled.reverse {
            RgbAttr { foreground: filled.background, background: filled.foreground, ..filled }
        } else {
            filled
        }
    } else {
        v.default
    }
}

impl Default for HighlightGroups {
    /// The empty table: no group defined, the empty default attribute.
    fn default() -> (r: Self)
        ensures
            r@.groups.len() == 0,
            r@.default == rgb_attr_empty(),
    {
        HighlightGroups { groups: Vec::new(), default: RgbAttr::default() }
    }
}

impl HighlightGroups {
    /// Replaces the default attribute. Stored entries are untouched: their
    /// absent channels inherit the new default from now on.
    pub fn set_default(&mut self, default: RgbAttr)
        ensures
            final(self)@ == (HighlightGroupsV { default, ..old(self)@ }),
    {
        self.default = default;
    }

    /// Upserts the attribute stored for `id`, growing the table as needed;
    /// gaps opened by the growth hold the empty attribute.
    pub fn define(&mut self, id: u64, attr: RgbAttr)
        requires
            id < usize::MAX,
        ensures
            final(self)@ == spec_define(old(self)@, id, attr),
    {
        let idx = id as usize;
        while self.groups.len() <= idx
            invariant
                old(self)@.groups.len() <= self.groups@.len(),
                self.groups@.len() == old(self)@.groups.len() || self.groups@.len() <= idx + 1,
                self.default == old(self)@.default,
                forall|j: int|
                    0 <= j < self.groups@.len() ==> self.groups@[j] == (if j < old(
                        self,
                    )@.groups.len() {
                        old(self)@.groups[j]
                    } else {
                        rgb_attr_empty()
                    }),
            decreases idx + 1 - self.groups.len(),
        {
            self.groups.push(RgbAttr::default());
        }
        self.groups[idx] = attr;
        proof {
            assert(final(self)@.groups =~= spec_define(old(self)@, id, attr).groups);
        }
    }

    /// Applies a batch of definitions in order.
    pub fn update(&mut self, hl_attrs: Vec<HighlightAttr>)
        requires
            forall|i: int| 0 <= i < hl_attrs@.len() ==> (#[trigger] hl_attrs@[i]).id < usize::MAX,
        ensures
            final(self)@ == spec_update(old(self)@, hl_attrs@),
    {
        let n = hl_attrs.len();
        let mut i: usize = 0;
        proof {
            assert(hl_attrs@.skip(0) =~= hl_attrs@);
        }
        while i < n
            invariant
                i <= n == hl_attrs@.len(),
                forall|j: int| 0 <= j < hl_attrs@.len() ==> (#[trigger] hl_attrs@[j]).id
                    < usize::MAX,
                spec_update(old(self)@, hl_attrs@) == spec_update(
                    self@,
                    hl_attrs@.skip(i as int),
                ),
            decreases n - i,
        {
            let ghost before = self@;
            let a = &hl_attrs[i];
            self.define(a.id, a.rgb_attr);
            proof {
                assert(hl_attrs@.skip(i as int).drop_first() =~= hl_attrs@.skip(i + 1));
                assert(hl_attrs@.skip(i as int)[0] == hl_attrs@[i as int]);
            }
            i = i + 1;
        }
        proof {
            assert(hl_attrs@.skip(n as int) =~= Seq::<HighlightAttr>::empty());
        }
    }

    /// The attribute to use for the group `hl_id`, with inheritance and
    /// reverse video applied.
    pub fn group_color_set(&self, hl_id: u64) -> (r: RgbAttr)
        ensures
            r == spec_resolve(self@, hl_id),
    {
        if hl_id < self.groups.len() as u64 {
            let hl = self.groups[hl_id as usize];
            let filled = RgbAttr {
                foreground: if hl.foreground.is_some() {
                    hl.foreground
                } else {
                    self.default.foreground
                },
                background: if hl.background.is_some() {
                    hl.background
                } else {
                    self.default.background
                },
                special: if hl.special.is_some() {
                    hl.special
                } else {
                    self.default.special
                },
                ..hl
            };
            if filled.reverse {
                filled.reverse_rgb_attr()
            } else {
                filled
            }
        } else {
            self.default
        }
    }

    /// The attribute for painting the cursor cell: the group's resolved
    /// attribute with foreground and background switched unconditionally,
    /// whatever the group's own reverse flag.
    pub fn cursor_color_set(&self, hl_id: u64) -> (r: RgbAttr)
        ensures
            r == spec_resolve(self@, hl_id).spec_reversed(),
    {
        self.group_color_set(hl_id).reverse_rgb_attr()
    }
}

/// Defining a group that leaves a channel absent does not pin that channel:
/// resolving the group returns the default in force at lookup time, and
/// replacing the default afterwards changes the resolution without another
/// definition.
pub proof fn lemma_default_inheritance(
    v: HighlightGroupsV,
    id: u64,
    attr: RgbAttr,
    new_default: RgbAttr,
)
    requires
        attr.foreground is None,
        attr.special is None,
        !attr.reverse,
    ensures
        spec_resolve(spec_define(v, id, attr), id).foreground == v.default.foreground,
        spec_resolve(spec_define(v, id, attr), id).special == v.default.special,
        spec_resolve(
            HighlightGroupsV { default: new_default, ..spec_define(v, id, attr) },
            id,
        ).foreground == new_default.foreground,
        spec_resolve(
            HighlightGroupsV { default: new_default, ..spec_define(v, id, attr) },
            id,
        ).special == new_default.special,
{
}

} // verus!
