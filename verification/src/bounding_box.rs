//! An object-style wrapper over one registered rectangle: property
//! access and relative positioning through the registry.

use vstd::prelude::*;
use crate::registry::{RectHandle, RectMetrics, RectRegistry, find_id, shift_u16};

verus! {

/// A named rectangle tracked in a registry.
pub struct BoundingBox {
    handle: RectHandle,
    handle_name: String,
}

impl BoundingBox {
    /// The wrapped handle.
    pub closed spec fn spec_handle(self) -> RectHandle {
        self.handle
    }

    /// The handle's name.
    pub closed spec fn spec_name(self) -> Seq<char> {
        self.handle_name@
    }

    /// Register a new box under `handle_name`.
    pub fn create(registry: &mut RectRegistry, handle_name: &str, rect: RectMetrics) -> (r:
        BoundingBox)
        ensures
            r.spec_name() == handle_name@,
            final(registry).spec_metrics(r.spec_handle().0) == Some(rect),
    {
        let handle = registry.register(Some(handle_name), rect);
        BoundingBox { handle, handle_name: handle_name.to_owned() }
    }

    /// The handle (object identifier).
    pub fn handle(&self) -> (r: RectHandle)
        ensures
            r == self.spec_handle(),
    {
        self.handle
    }

    /// The handle name.
    pub fn name(&self) -> (r: &str)
        ensures
            r@ == self.spec_name(),
    {
        self.handle_name.as_str()
    }

    /// The box's current metrics, when registered.
    pub fn metrics(&self, registry: &RectRegistry) -> (r: Option<RectMetrics>)
        ensures
            r == registry.spec_metrics(self.spec_handle().0),
    {
        registry.get_metrics(self.handle)
    }

    /// The box's current area, for rendering.
    pub fn prepare(&self, registry: &RectRegistry) -> (r: Option<RectMetrics>)
        ensures
            r == registry.spec_metrics(self.spec_handle().0),
    {
        registry.get_metrics(self.handle)
    }

    /// The horizontal position.
    pub fn x(&self, registry: &RectRegistry) -> (r: Option<u16>)
        ensures
            r == (match registry.spec_metrics(self.spec_handle().0) {
                Some(m) => Some(m.x),
                None => None::<u16>,
            }),
    {
        match registry.get_metrics(self.handle) {
            Some(m) => Some(m.x),
            None => None,
        }
    }

    /// Set the horizontal position.
    pub fn set_x(&self, registry: &mut RectRegistry, x: u16) -> (r: bool)
        ensures
            !r ==> *final(registry) == *old(registry),
    {
        registry.set_x(self.handle, x)
    }

    /// The vertical position.
    pub fn y(&self, registry: &RectRegistry) -> (r: Option<u16>)
        ensures
            r == (match registry.spec_metrics(self.spec_handle().0) {
                Some(m) => Some(m.y),
                None => None::<u16>,
            }),
    {
        match registry.get_metrics(self.handle) {
            Some(m) => Some(m.y),
            None => None,
        }
    }

    /// Set the vertical position.
    pub fn set_y(&self, registry: &mut RectRegistry, y: u16) -> (r: bool)
        ensures
            !r ==> *final(registry) == *old(registry),
    {
        registry.set_y(self.handle, y)
    }

    /// The width.
    pub fn width(&self, registry: &RectRegistry) -> (r: Option<u16>)
        ensures
            r == (match registry.spec_metrics(self.spec_handle().0) {
                Some(m) => Some(m.width),
                None => None::<u16>,
            }),
    {
        match registry.get_metrics(self.handle) {
            Some(m) => Some(m.width),
            None => None,
        }
    }

    /// Set the width.
    pub fn set_width(&self, registry: &mut RectRegistry, width: u16) -> (r: bool)
        ensures
            r == (old(registry).spec_metrics(self.spec_handle().0) is Some),
            !r ==> *final(registry) == *old(registry),
            r ==> (match old(registry).spec_metrics(self.spec_handle().0) {
                Some(m) => final(registry).spec_metrics(self.spec_handle().0) == Some(
                    (RectMetrics { width, ..m }),
                ),
                None => false,
            }),
    {
        match registry.get_metrics(self.handle) {
            Some(m) => registry.update(self.handle, RectMetrics { width, ..m }),
            None => false,
        }
    }

    /// The height.
    pub fn height(&self, registry: &RectRegistry) -> (r: Option<u16>)
        ensures
            r == (match registry.spec_metrics(self.spec_handle().0) {
                Some(m) => Some(m.height),
                None => None::<u16>,
            }),
    {
        match registry.get_metrics(self.handle) {
            Some(m) => Some(m.height),
            None => None,
        }
    }

    /// Set the height.
    pub fn set_height(&self, registry: &mut RectRegistry, height: u16) -> (r: bool)
        ensures
            r == (old(registry).spec_metrics(self.spec_handle().0) is Some),
            !r ==> *final(registry) == *old(registry),
            r ==> (match old(registry).spec_metrics(self.spec_handle().0) {
                Some(m) => final(registry).spec_metrics(self.spec_handle().0) == Some(
                    (RectMetrics { height, ..m }),
                ),
                None => false,
            }),
    {
        match registry.get_metrics(self.handle) {
            Some(m) => registry.update(self.handle, RectMetrics { height, ..m }),
            None => false,
        }
    }

    /// Replace the whole rectangle.
    pub fn update(&self, registry: &mut RectRegistry, rect: RectMetrics) -> (r: bool)
        ensures
            r == (find_id(old(registry).entries_view(), self.spec_handle().0) >= 0),
            r ==> final(registry).spec_metrics(self.spec_handle().0) == Some(rect),
            !r ==> *final(registry) == *old(registry),
    {
        registry.update(self.handle, rect)
    }

    /// Wrap an existing handle name, when the registry knows it.
    pub fn from_handle_name(registry: &RectRegistry, handle_name: &str) -> (r: Option<BoundingBox>)
        ensures
            match registry.spec_id_of_name(handle_name@) {
                Some(id) => r matches Some(b) && b.spec_handle().0 == id && b.spec_name()
                    == handle_name@,
                None => r is None,
            },
    {
        match registry.get_handle(handle_name) {
            Some(handle) => Some(
                BoundingBox { handle, handle_name: handle_name.to_owned() },
            ),
            None => None,
        }
    }

    /// Place this box at the other box's horizontal position plus a
    /// signed offset.
    pub fn set_relative_x(&self, registry: &mut RectRegistry, other: &BoundingBox, offset: i16)
        -> (r: bool)
        ensures
            !r ==> *final(registry) == *old(registry),
    {
        match other.x(registry) {
            Some(other_x) => {
                let new_x = crate::registry::shift_coord(other_x, offset);
                self.set_x(registry, new_x)
            },
            None => false,
        }
    }

    /// Place this box at the other box's vertical position plus a signed
    /// offset.
    pub fn set_relative_y(&self, registry: &mut RectRegistry, other: &BoundingBox, offset: i16)
        -> (r: bool)
        ensures
            !r ==> *final(registry) == *old(registry),
    {
        match other.y(registry) {
            Some(other_y) => {
                let new_y = crate::registry::shift_coord(other_y, offset);
                self.set_y(registry, new_y)
            },
            None => false,
        }
    }

    /// Place this box relative to another in both directions at once.
    pub fn set_relative_position(
        &self,
        registry: &mut RectRegistry,
        other: &BoundingBox,
        offset_x: i16,
        offset_y: i16,
    ) -> (r: bool)
        ensures
            !r ==> *final(registry) == *old(registry),
            r ==> (match old(registry).spec_metrics(self.spec_handle().0) {
                Some(m) => (match old(registry).spec_metrics(other.spec_handle().0) {
                    Some(om) => final(registry).spec_metrics(self.spec_handle().0) == Some(
                        (RectMetrics {
                            x: shift_u16(om.x, offset_x as int),
                            y: shift_u16(om.y, offset_y as int),
                            ..m
                        }),
                    ),
                    None => false,
                }),
                None => false,
            }),
    {
        match other.metrics(registry) {
            Some(om) => {
                let new_x = crate::registry::shift_coord(om.x, offset_x);
                let new_y = crate::registry::shift_coord(om.y, offset_y);
                match registry.get_metrics(self.handle) {
                    Some(m) => registry.update(
                        self.handle,
                        RectMetrics { x: new_x, y: new_y, ..m },
                    ),
                    None => false,
                }
            },
            None => false,
        }
    }
}

/// Look a box up by its handle name.
pub fn get_box_by_name(registry: &RectRegistry, handle_name: &str) -> (r: Option<BoundingBox>)
    ensures
        match registry.spec_id_of_name(handle_name@) {
            Some(id) => r matches Some(b) && b.spec_handle().0 == id && b.spec_name()
                == handle_name@,
            None => r is None,
        },
{
    BoundingBox::from_handle_name(registry, handle_name)
}

/// List every named box with its metrics.
pub fn list_all_boxes(registry: &RectRegistry) -> (r: Vec<(String, RectMetrics)>)
    ensures
        forall|k: int| 0 <= k < r@.len() ==> crate::registry::name_in_entries(
            (#[trigger] r@[k]).0@,
            registry.entries_view(),
        ),
{
    let names = registry.all_names();
    let mut r: Vec<(String, RectMetrics)> = Vec::new();
    let mut k: usize = 0;
    while k < names.len()
        invariant
            0 <= k <= names@.len(),
            forall|q: int| 0 <= q < names@.len() ==> crate::registry::name_in_entries(
                (#[trigger] names@[q])@,
                registry.entries_view(),
            ),
            forall|q: int| 0 <= q < r@.len() ==> crate::registry::name_in_entries(
                (#[trigger] r@[q]).0@,
                registry.entries_view(),
            ),
        decreases names@.len() - k,
    {
        match registry.get_metrics_by_name(names[k].as_str()) {
            Some(m) => {
                r.push((names[k].clone(), m));
                proof {
                    assert(r@[r@.len() - 1].0@ == names@[k as int]@);
                }
            },
            None => {},
        }
        k += 1;
    }
    r
}

} // verus!
