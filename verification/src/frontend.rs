//! The window's navigation: the trail of screens behind the one on show, and
//! the save notice in the menu bar.
use crate::entities::{decimal, decimal_text};
use crate::views::{Gallery, GuiView};
use vstd::prelude::*;

verus! {

/// What the screen on show asks for once it has been drawn.
pub enum ViewResponse {
    /// Keep this screen in the trail and show another on top of it.
    Push(GuiView),
    /// Show another screen in place of this one.
    Replace(GuiView),
    /// Leave this screen.
    Pop,
    /// Stay on this screen.
    Unchanged,
}

/// The trail of screens, the last one on show, and the loaded images of type
/// `I`.
pub struct Frontend<I> {
    history: Vec<GuiView>,
    image_data: I,
}

/// The trail after `current`, taken off its top, answered `response`.
pub open spec fn trail_after(
    rest: Seq<GuiView>,
    current: GuiView,
    response: ViewResponse,
) -> Seq<GuiView> {
    match response {
        ViewResponse::Push(next) => rest.push(current).push(next),
        ViewResponse::Replace(next) => rest.push(next),
        ViewResponse::Pop => rest,
        ViewResponse::Unchanged => rest.push(current),
    }
}

impl<I> Frontend<I> {
    /// The screens of the trail, first to last.
    pub closed spec fn history(&self) -> Seq<GuiView> {
        self.history@
    }

    /// The loaded images.
    pub closed spec fn images(&self) -> I {
        self.image_data
    }

    /// Starts on the gallery.
    pub fn new(image_data: I) -> (f: Frontend<I>)
        ensures
            f.history() == seq![GuiView::Gallery(Gallery)],
            f.images() == image_data,
    {
        let f = Frontend { history: vec![GuiView::Gallery(Gallery)], image_data };
        assert(f.history() =~= seq![GuiView::Gallery(Gallery)]);
        f
    }

    /// The loaded images, to be changed in place.
    pub fn image_data_mut(&mut self) -> (r: &mut I)
        ensures
            *r == old(self).images(),
            final(self).images() == *final(r),
            final(self).history() == old(self).history(),
    {
        &mut self.image_data
    }

    /// Takes the screen on show off the trail, to be drawn.
    pub fn take_current(&mut self) -> (v: GuiView)
        requires
            old(self).history().len() > 0,
        ensures
            v == old(self).history().last(),
            final(self).history() == old(self).history().drop_last(),
            final(self).images() == old(self).images(),
    {
        self.history.pop().unwrap()
    }

    /// Puts the trail back together after `current` was drawn and answered
    /// `response`.
    pub fn handle_view_response(&mut self, response: ViewResponse, current: GuiView)
        ensures
            final(self).history() == trail_after(old(self).history(), current, response),
            final(self).images() == old(self).images(),
    {
        match response {
            ViewResponse::Push(next) => {
                self.history.push(current);
                self.history.push(next);
            },
            ViewResponse::Replace(next) => {
                self.history.push(next);
            },
            ViewResponse::Pop => {},
            ViewResponse::Unchanged => {
                self.history.push(current);
            },
        }
    }

    /// A click on the `index`-th screen of the trail: the screens after it go.
    pub fn pop_to(&mut self, index: usize)
        requires
            index < old(self).history().len(),
        ensures
            final(self).history() == old(self).history().take(index + 1),
            final(self).images() == old(self).images(),
    {
        let n = self.history.len();
        assert(index < n);
        self.history.truncate(index + 1);
    }
}

/// The notice of when the database was last saved, given the seconds since
/// then, if it was saved in this session.
pub open spec fn save_notice(elapsed_secs: Option<u64>) -> Seq<char> {
    match elapsed_secs {
        None => "Not saved recently."@,
        Some(s) => if s / 60 == 0 {
            "Saved less than 1 minute ago."@
        } else if s / 60 == 1 {
            "Saved 1 minute ago."@
        } else {
            "Saved "@ + decimal((s / 60) as nat) + " minutes ago."@
        },
    }
}

/// The notice of when the database was last saved.
pub fn save_status(elapsed_secs: Option<u64>) -> (t: String)
    ensures
        t@ == save_notice(elapsed_secs),
{
    match elapsed_secs {
        None => String::from_str("Not saved recently."),
        Some(s) => {
            let minutes = s / 60;
            if minutes == 0 {
                String::from_str("Saved less than 1 minute ago.")
            } else if minutes == 1 {
                String::from_str("Saved 1 minute ago.")
            } else {
                let mut t = String::from_str("Saved ");
                let number = decimal_text(minutes);
                t.append(number.as_str());
                t.append(" minutes ago.");
                t
            }
        },
    }
}

} // verus!
