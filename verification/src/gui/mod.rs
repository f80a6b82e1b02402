//! The desktop GUI: windows, applications, widgets and events.

pub mod about;
pub mod app;
pub mod desktop;
pub mod event;
pub mod widget;
pub mod window;

use vstd::prelude::*;
use crate::driver::framebuffer::{Color, FramebufferDriver, fb_redrawn, fb_screen, fb_wf};
use crate::gui::desktop::{Desktop, TASKBAR_HEIGHT, desktop_blue, desktop_image, desktop_renders};

verus! {

/// Bring up the GUI: set up and draw the desktop; the window manager, the
/// application registry and the event queue start empty.
pub fn init(desktop: &mut Option<Desktop>, fb: &mut Option<FramebufferDriver>)
    requires
        fb_wf(*old(fb)),
        (*old(fb)) matches Some(d) ==> desktop_renders(
            Desktop {
                width: d.spec_mode().width,
                height: d.spec_mode().height,
                taskbar_height: TASKBAR_HEIGHT,
                background_color: desktop_blue(),
                taskbar_color: Color { r: 128, g: 128, b: 128, a: 255 },
            },
            true,
        ),
    ensures
        fb_wf(*final(fb)),
        match *old(fb) {
            None => *final(desktop) == *old(desktop) && *final(fb) is None,
            Some(f) => (*final(desktop)) matches Some(d) && d == (Desktop {
                width: f.spec_mode().width,
                height: f.spec_mode().height,
                taskbar_height: TASKBAR_HEIGHT,
                background_color: desktop_blue(),
                taskbar_color: Color { r: 128, g: 128, b: 128, a: 255 },
            }) && fb_redrawn(*old(fb), *final(fb), desktop_image(fb_screen(*old(fb)), d)),
        },
{
    desktop::init(desktop, fb);
    window::init();
    app::init();
    event::init();
}

} // verus!
