use crate::album::{navigate, spec_step_index, first_index_of, Direction};
use crate::view::{spec_rotate_cw, Rotation};
use vstd::prelude::*;

verus! {

/// A key that the viewer reacts to.
#[derive(Clone, Copy, Debug, PartialEq, Eq, Structural)]
pub enum Key {
    ArrowRight,
    ArrowLeft,
    Escape,
    R,
    F,
}

/// What a key asks the viewer to do.
#[derive(Clone, Copy, Debug, PartialEq, Eq, Structural)]
pub enum Command {
    Navigate(Direction),
    Exit,
    Rotate,
    ToggleFit,
}

pub open spec fn spec_command_for_key(key: Key) -> Command {
    match key {
        Key::ArrowRight => Command::Navigate(Direction::Next),
        Key::ArrowLeft => Command::Navigate(Direction::Previous),
        Key::Escape => Command::Exit,
        Key::R => Command::Rotate,
        Key::F => Command::ToggleFit,
    }
}

/// The command bound to `key`: the arrows walk the album, Escape exits, R
/// turns the view and F toggles between fit and actual size.
pub fn command_for_key(key: Key) -> (r: Command)
    ensures
        r == spec_command_for_key(key),
{
    match key {
        Key::ArrowRight => Command::Navigate(Direction::Next),
        Key::ArrowLeft => Command::Navigate(Direction::Previous),
        Key::Escape => Command::Exit,
        Key::R => Command::Rotate,
        Key::F => Command::ToggleFit,
    }
}

/// The part of the viewer's state that is not geometry in screen units: the
/// album, the image shown, its orientation, and whether it still waits for
/// its first fit to the window.
pub struct Session {
    pub album: Vec<String>,
    pub current: String,
    pub rotation: Rotation,
    pub needs_fit: bool,
}

impl Session {
    pub open spec fn wf(&self) -> bool {
        self.rotation.wf()
    }

    /// A session showing `current` upright, waiting for its first fit.
    pub fn new(album: Vec<String>, current: String) -> (r: Session)
        ensures
            r.wf(),
            r.album@ == album@,
            r.current@ == current@,
            r.rotation.view_steps() == 0,
            r.needs_fit,
    {
        Session { album, current, rotation: Rotation::new(), needs_fit: true }
    }

    /// The path to load for one step through the album from the image shown,
    /// or `None` when that image is not in the album.
    pub fn target(&self, dir: Direction) -> (r: Option<String>)
        ensures
            r is None <==> forall|j: int| 0 <= j < self.album@.len() ==> self.album@[j]@ != self.current@,
            r matches Some(p) ==> exists|i: int|
                first_index_of(self.album@.map_values(|p: String| p@), self.current@, i)
                    && p@ == self.album@[spec_step_index(i, self.album@.len() as int, dir)]@,
    {
        navigate(&self.album, &self.current, dir)
    }

    /// Shows a newly loaded image: it becomes the current one, upright, and
    /// waits for its first fit; the album stays as it was.
    pub fn apply_loaded(&mut self, path: String)
        ensures
            final(self).wf(),
            final(self).album@ == old(self).album@,
            final(self).current@ == path@,
            final(self).rotation.view_steps() == 0,
            final(self).needs_fit,
    {
        self.current = path;
        self.rotation = Rotation::new();
        self.needs_fit = true;
    }

    /// Turns the view a quarter turn clockwise.
    pub fn rotate_cw(&mut self)
        requires
            old(self).wf(),
        ensures
            final(self).wf(),
            final(self).rotation.view_steps() == spec_rotate_cw(old(self).rotation.view_steps()),
            final(self).album@ == old(self).album@,
            final(self).current@ == old(self).current@,
            final(self).needs_fit == old(self).needs_fit,
    {
        self.rotation.rotate_cw();
    }

    /// Whether the image is to be fitted to the window now: it waits for its
    /// first fit and the window has a usable size. The wait ends once this
    /// answers `true`.
    pub fn take_fit(&mut self, window_usable: bool) -> (r: bool)
        ensures
            r == (old(self).needs_fit && window_usable),
            final(self).needs_fit == (old(self).needs_fit && !window_usable),
            final(self).rotation == old(self).rotation,
            final(self).album@ == old(self).album@,
            final(self).current@ == old(self).current@,
    {
        if self.needs_fit && window_usable {
            self.needs_fit = false;
            true
        } else {
            false
        }
    }
}

} // verus!
