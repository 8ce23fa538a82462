//! Where the window stands, while it is shown, hidden and shown again.

use vstd::prelude::*;

use crate::persistence::WindowGeometry;

verus! {

/// What happens to the window.
#[derive(Clone, Copy, Debug, PartialEq, Eq, Structural)]
pub enum WindowEvent {
    RedrawRequested,
    Moved,
    Resized,
    Other,
}

/// Keeps the bounds of the window apart from whether it is maximized, so that a maximized window
/// can be put back to its bounds.
#[derive(Clone, Copy, Debug, PartialEq, Eq, Structural)]
pub struct WindowGeometryManager {
    pub last_normal: Option<WindowGeometry>,
    pub last_persisted: Option<WindowGeometry>,
    pub pending_show: Option<WindowGeometry>,
}

/// The same bounds, not maximized.
pub open spec fn normal(geometry: WindowGeometry) -> WindowGeometry {
    WindowGeometry { maximized: false, ..geometry }
}

/// Whether the bounds of a window are those it has when it fills no screen.
pub fn is_normal_window_state(maximized: bool, fullscreen: bool) -> (result: bool)
    ensures
        result == (!maximized && !fullscreen),
{
    !maximized && !fullscreen
}

/// The bounds of a window, if they are worth keeping: it fills no screen, its position is known
/// and it is not empty.
pub fn observed_geometry(
    maximized: bool,
    fullscreen: bool,
    position: Option<(i32, i32)>,
    width: u32,
    height: u32,
) -> (geometry: Option<WindowGeometry>)
    ensures
        geometry is Some <==> !maximized && !fullscreen && position is Some && width > 0 && height
            > 0,
        geometry matches Some(geometry) ==> (position matches Some(place) && geometry
            == WindowGeometry { x: place.0, y: place.1, width, height, maximized: false }),
{
    if !is_normal_window_state(maximized, fullscreen) {
        return None;
    }
    match position {
        Some((x, y)) if width > 0 && height > 0 => Some(
            WindowGeometry { x, y, width, height, maximized: false },
        ),
        _ => None,
    }
}

/// Where a window of a length starts on a monitor: in the middle, or at the edge of the monitor
/// where it is longer.
pub fn centered(start: i32, monitor_length: u32, length: i32) -> (place: i32)
    requires
        monitor_length <= i32::MAX,
        0 <= length,
        start + monitor_length <= i32::MAX,
    ensures
        place == (if length < monitor_length {
            start + (monitor_length - length) / 2
        } else {
            start as int
        }),
{
    if length < monitor_length as i32 {
        start + (monitor_length as i32 - length) / 2
    } else {
        start
    }
}

/// Whether a window can be given these bounds.
pub fn is_applicable(geometry: WindowGeometry) -> (applicable: bool)
    ensures
        applicable == (geometry.width != 0 && geometry.height != 0),
{
    geometry.width != 0 && geometry.height != 0
}

impl WindowGeometryManager {
    /// A manager for a window that stood somewhere when it was last saved.
    pub fn new(saved: Option<WindowGeometry>) -> (manager: Self)
        ensures
            manager.last_normal == (match saved {
                Some(geometry) => Some(normal(geometry)),
                None => None,
            }),
            manager.last_persisted == saved,
            manager.pending_show == saved,
    {
        let last_normal = match saved {
            Some(geometry) => Some(geometry.as_normal()),
            None => None,
        };
        WindowGeometryManager { last_normal, last_persisted: saved, pending_show: saved }
    }

    /// The bounds that are kept once bounds were seen, or could not be.
    pub open spec fn kept(self, observed: Option<WindowGeometry>) -> Option<WindowGeometry> {
        if observed is Some {
            observed
        } else {
            self.last_normal
        }
    }

    /// Keeps the bounds of the window, if they could be seen.
    pub fn observe(&mut self, observed: Option<WindowGeometry>)
        ensures
            *final(self) == (WindowGeometryManager {
                last_normal: old(self).kept(observed),
                ..*old(self)
            }),
    {
        if observed.is_some() {
            self.last_normal = observed;
        }
    }

    /// Where the window stands: its last bounds while it filled no screen, and whether it is
    /// maximized. If it fills no screen now, `observed` are its bounds.
    pub fn capture_placement(
        &mut self,
        maximized: bool,
        fullscreen: bool,
        observed: Option<WindowGeometry>,
    ) -> (placement: Option<WindowGeometry>)
        ensures
            *final(self) == (WindowGeometryManager {
                last_normal: if maximized || fullscreen {
                    old(self).last_normal
                } else {
                    old(self).kept(observed)
                },
                ..*old(self)
            }),
            placement == (match final(self).last_normal {
                Some(geometry) => Some(WindowGeometry { maximized, ..geometry }),
                None => None,
            }),
    {
        if is_normal_window_state(maximized, fullscreen) {
            self.observe(observed);
        }
        match self.last_normal {
            Some(geometry) => Some(WindowGeometry { maximized, ..geometry }),
            None => None,
        }
    }

    /// What is to be written: a placement that was not the last one written.
    pub fn unsaved(&self, placement: Option<WindowGeometry>) -> (unsaved: Option<WindowGeometry>)
        ensures
            unsaved == (if placement == self.last_persisted {
                None
            } else {
                placement
            }),
    {
        match (placement, self.last_persisted) {
            (Some(placement), Some(last)) => if placement == last {
                None
            } else {
                Some(placement)
            },
            (placement, _) => placement,
        }
    }

    /// Notes that a placement was written.
    pub fn mark_saved(&mut self, placement: WindowGeometry)
        ensures
            *final(self) == (WindowGeometryManager {
                last_persisted: Some(placement),
                ..*old(self)
            }),
    {
        self.last_persisted = Some(placement);
    }

    /// Prepares to hide a window that stands at a placement. Once it is hidden, it is given the
    /// bounds that come back, if any: window managers may forget those of a maximized window.
    pub fn prepare_hiding(&mut self, placement: Option<WindowGeometry>) -> (bounds: Option<WindowGeometry>)
        ensures
            *final(self) == (WindowGeometryManager { pending_show: placement, ..*old(self) }),
            bounds == (if placement matches Some(place) && place.maximized {
                old(self).last_normal
            } else {
                None
            }),
    {
        self.pending_show = placement;
        match placement {
            Some(placement) => if placement.maximized {
                self.last_normal
            } else {
                None
            },
            None => None,
        }
    }

    /// Whether a window that was just shown has to be redrawn, to be put in its place.
    pub fn awaits_placement(&self) -> (waits: bool)
        ensures
            waits == (self.pending_show is Some),
    {
        self.pending_show.is_some()
    }

    /// Handles an event of the window, with its bounds if it fills no screen. The placement that
    /// comes back, if any, is to be applied.
    pub fn handle_event(
        &mut self,
        event: WindowEvent,
        visible: bool,
        observed: Option<WindowGeometry>,
    ) -> (placement: Option<WindowGeometry>)
        ensures
            placement == (if event is RedrawRequested && visible {
                old(self).pending_show
            } else {
                None
            }),
            *final(self) == (if placement is Some {
                WindowGeometryManager {
                    last_normal: Some(normal(placement->0)),
                    pending_show: None,
                    ..*old(self)
                }
            } else if old(self).pending_show is None && (event is Moved || event is Resized) {
                WindowGeometryManager { last_normal: old(self).kept(observed), ..*old(self) }
            } else {
                *old(self)
            }),
    {
        if let WindowEvent::RedrawRequested = event {
            if visible {
                if let Some(placement) = self.pending_show {
                    self.pending_show = None;
                    self.last_normal = Some(placement.as_normal());
                    return Some(placement);
                }
            }
        }
        if self.pending_show.is_none() {
            match event {
                WindowEvent::Moved => self.observe(observed),
                WindowEvent::Resized => self.observe(observed),
                _ => {},
            }
        }
        None
    }
}

} // verus!
