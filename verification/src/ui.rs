//! User-interface components: text inputs and texts.
use vstd::prelude::*;
use crate::components::Color;

verus! {

/// A component representing an input text in the UI.
pub struct UiInput {
    pub text: String,
    pub width: usize,
    pub height: usize,
    pub cursor: usize,
    /// Reference of the font in the asset manager.
    pub font_ref: usize,
    /// font size when using a TrueType font
    pub font_size: usize,
    /// font color when using a TrueType font
    pub font_color: Option<Color>,
    pub tab_index: usize,
    pub dirty: bool,
}

impl UiInput {
    /// An empty input of the given size, using the font `font_ref`.
    pub fn new(width: usize, height: usize, font_ref: usize) -> (r: Self)
        ensures
            r.text@ == Seq::<char>::empty(),
            r.width == width,
            r.height == height,
            r.cursor == 0,
            r.font_ref == font_ref,
            r.font_size == 0,
            r.font_color.is_none(),
            r.tab_index == 0,
            r.dirty,
    {
        UiInput {
            text: String::new(),
            width,
            height,
            cursor: 0,
            font_ref,
            font_size: 0,
            font_color: None,
            tab_index: 0,
            dirty: true,
        }
    }

    /// This input with its font size set to `font_size`.
    pub fn with_font_size(self, font_size: usize) -> (r: Self)
        ensures
            r == (UiInput { font_size, ..self }),
    {
        let mut s = self;
        s.font_size = font_size;
        s
    }

    /// This input with its font color set to `color`.
    pub fn with_font_color(self, color: Color) -> (r: Self)
        ensures
            r == (UiInput { font_color: Some(color), ..self }),
    {
        let mut s = self;
        s.font_color = Some(color);
        s
    }

    /// This input with its tab index set to `tab_index`.
    pub fn with_tab_index(self, tab_index: usize) -> (r: Self)
        ensures
            r == (UiInput { tab_index, ..self }),
    {
        let mut s = self;
        s.tab_index = tab_index;
        s
    }

    pub fn width(&self) -> (r: usize)
        ensures
            r == self.width,
    {
        self.width
    }

    pub fn height(&self) -> (r: usize)
        ensures
            r == self.height,
    {
        self.height
    }

    pub fn font_color(&self) -> (r: Option<Color>)
        ensures
            r == self.font_color,
    {
        self.font_color
    }

    pub fn font_size(&self) -> (r: usize)
        ensures
            r == self.font_size,
    {
        self.font_size
    }

    pub fn text(&self) -> (r: &str)
        ensures
            r@ == self.text@,
    {
        self.text.as_str()
    }

    pub fn font_ref(&self) -> (r: usize)
        ensures
            r == self.font_ref,
    {
        self.font_ref
    }

    pub fn tab_index(&self) -> (r: usize)
        ensures
            r == self.tab_index,
    {
        self.tab_index
    }

    pub fn set_tab_index(&mut self, tab_index: usize)
        ensures
            *final(self) == (UiInput { tab_index, ..*old(self) }),
    {
        self.tab_index = tab_index;
    }

    /// Sets the content of this input; it becomes dirty when the content changes.
    pub fn set_text(&mut self, text: String)
        ensures
            final(self).text@ == text@,
            final(self).dirty == (old(self).dirty || text@ != old(self).text@),
            final(self).width == old(self).width,
            final(self).height == old(self).height,
            final(self).cursor == old(self).cursor,
            final(self).font_ref == old(self).font_ref,
            final(self).font_size == old(self).font_size,
            final(self).font_color == old(self).font_color,
            final(self).tab_index == old(self).tab_index,
    {
        if !(text == self.text) {
            self.text = text;
            self.dirty = true;
        }
    }
}

/// A component representing a text in the UI.
pub struct UiText {
    pub text: String,
    /// Reference of the font in the asset manager.
    pub font_ref: usize,
    pub font_size: usize,
    pub font_color: Option<Color>,
    pub dirty: bool,
    /// Key of the function, held by the application, whose value this text shows.
    pub sync: Option<usize>,
}

impl UiText {
    /// A dirty text showing `text` in the font `font_ref`.
    pub fn new(text: String, font_ref: usize) -> (r: Self)
        ensures
            r == (UiText { text, font_ref, font_size: 10, font_color: None, dirty: true, sync: None }),
    {
        UiText { text, font_ref, font_size: 10, font_color: None, dirty: true, sync: None }
    }

    /// This text with its font size set to `font_size`.
    pub fn with_font_size(self, font_size: usize) -> (r: Self)
        ensures
            r == (UiText { font_size, ..self }),
    {
        let mut s = self;
        s.font_size = font_size;
        s
    }

    /// This text with its font color set to `color`.
    pub fn with_font_color(self, color: Color) -> (r: Self)
        ensures
            r == (UiText { font_color: Some(color), ..self }),
    {
        let mut s = self;
        s.font_color = Some(color);
        s
    }

    /// This text, kept in sync with the value of the application's function `key`.
    pub fn sync_value(self, key: usize) -> (r: Self)
        ensures
            r == (UiText { sync: Some(key), ..self }),
    {
        let mut s = self;
        s.sync = Some(key);
        s
    }

    pub fn text(&self) -> (r: &str)
        ensures
            r@ == self.text@,
    {
        self.text.as_str()
    }

    /// Sets the content of this text; it becomes dirty when the content changes.
    pub fn set_text(&mut self, text: String)
        ensures
            final(self).text@ == text@,
            final(self).dirty == (old(self).dirty || text@ != old(self).text@),
            final(self).font_ref == old(self).font_ref,
            final(self).font_size == old(self).font_size,
            final(self).font_color == old(self).font_color,
            final(self).sync == old(self).sync,
    {
        if !(text == self.text) {
            self.text = text;
            self.dirty = true;
        }
    }
}

/// A text, its content taken by its characters.
pub struct UiTextView {
    pub text: Seq<char>,
    pub font_ref: usize,
    pub font_size: usize,
    pub font_color: Option<Color>,
    pub dirty: bool,
    pub sync: Option<usize>,
}

impl View for UiText {
    type V = UiTextView;

    open spec fn view(&self) -> UiTextView {
        UiTextView {
            text: self.text@,
            font_ref: self.font_ref,
            font_size: self.font_size,
            font_color: self.font_color,
            dirty: self.dirty,
            sync: self.sync,
        }
    }
}

/// The text `t` once its content was set to `text`.
pub open spec fn text_set(t: UiTextView, text: Seq<char>) -> UiTextView {
    UiTextView { text, dirty: t.dirty || text != t.text, ..t }
}

/// A button of the user interface: a text on an image, whose material changes
/// when it is hovered or clicked.
pub struct UiButton {
    pub text: String,
    pub width: usize,
    pub height: usize,
    /// Reference of the font in the asset manager.
    pub font_ref: usize,
    pub font_size: usize,
    pub font_color: Option<Color>,
    /// Reference of the material of the button at rest, in the asset manager.
    pub background: Option<usize>,
    /// Reference of the material of the button when hovered.
    pub hover: Option<usize>,
    /// Reference of the material of the button when clicked.
    pub clicked: Option<usize>,
    pub hovered: bool,
}

impl UiButton {
    /// A button of the given size showing `text` in the font `font_ref`.
    pub fn new(width: usize, height: usize, font_ref: usize, text: String) -> (r: Self)
        ensures
            r == (UiButton {
                text,
                width,
                height,
                font_ref,
                font_size: 10,
                font_color: None,
                background: None,
                hover: None,
                clicked: None,
                hovered: false,
            }),
    {
        UiButton {
            text,
            width,
            height,
            font_ref,
            font_size: 10,
            font_color: None,
            background: None,
            hover: None,
            clicked: None,
            hovered: false,
        }
    }

    /// This button with the material `background` at rest.
    pub fn with_background(self, background: usize) -> (r: Self)
        ensures
            r == (UiButton { background: Some(background), ..self }),
    {
        let mut s = self;
        s.background = Some(background);
        s
    }
}

} // verus!
