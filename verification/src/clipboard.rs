//! Clipboard abstraction: the content variants, the provider capability,
//! and an in-memory clipboard for tests and loopback use.

use vstd::prelude::*;

use crate::text::{bytes_eq, str_eq};

verus! {

/// Clipboard contents: empty, text, or an image with raw bytes.
#[derive(Debug, Clone)]
pub enum ClipboardContent {
    Empty,
    Text(String),
    Image { mime: String, width: u32, height: u32, bytes: Vec<u8> },
}

/// Mathematical model of clipboard contents.
pub enum ClipboardContentView {
    Empty,
    Text(Seq<char>),
    Image { mime: Seq<char>, width: u32, height: u32, bytes: Seq<u8> },
}

impl View for ClipboardContent {
    type V = ClipboardContentView;

    open spec fn view(&self) -> ClipboardContentView {
        match self {
            ClipboardContent::Empty => ClipboardContentView::Empty,
            ClipboardContent::Text(t) => ClipboardContentView::Text(t@),
            ClipboardContent::Image { mime, width, height, bytes } => ClipboardContentView::Image {
                mime: mime@,
                width: *width,
                height: *height,
                bytes: bytes@,
            },
        }
    }
}

impl ClipboardContent {
    /// An owned copy of this content.
    pub fn duplicate(&self) -> (r: ClipboardContent)
        ensures
            r@ == self@,
    {
        match self {
            ClipboardContent::Empty => ClipboardContent::Empty,
            ClipboardContent::Text(t) => ClipboardContent::Text(t.clone()),
            ClipboardContent::Image { mime, width, height, bytes } => {
                let mut b: Vec<u8> = Vec::new();
                crate::protocol::append_slice(&mut b, bytes.as_slice());
                ClipboardContent::Image {
                    mime: mime.clone(),
                    width: *width,
                    height: *height,
                    bytes: b,
                }
            },
        }
    }

    /// Model-level equality, decided executably.
    pub fn same_as(&self, other: &ClipboardContent) -> (r: bool)
        ensures
            r <==> self@ == other@,
    {
        match (self, other) {
            (ClipboardContent::Empty, ClipboardContent::Empty) => true,
            (ClipboardContent::Text(a), ClipboardContent::Text(b)) => str_eq(
                a.as_str(),
                b.as_str(),
            ),
            (
                ClipboardContent::Image { mime: m1, width: w1, height: h1, bytes: b1 },
                ClipboardContent::Image { mime: m2, width: w2, height: h2, bytes: b2 },
            ) => str_eq(m1.as_str(), m2.as_str()) && *w1 == *w2 && *h1 == *h2 && bytes_eq(
                b1.as_slice(),
                b2.as_slice(),
            ),
            _ => false,
        }
    }
}

/// Why a clipboard operation failed.
#[derive(Debug, Clone, Copy, PartialEq, Eq, Structural)]
pub enum ClipboardError {
    /// The platform clipboard refused the operation.
    Unavailable,
}

/// A listener notified of simulated copies.
pub trait ClipboardListener: Send + Sync {
    /// Called with the copied content.
    fn on_copy(&self, content: ClipboardContent);
}

/// The capability the core expects from a platform clipboard. The
/// environment implements it; nothing is assumed of those implementations.
pub trait ClipboardProvider: Sized {
    /// Read the current content.
    fn read(&self) -> Result<ClipboardContent, ClipboardError>;

    /// Replace the current content.
    fn write(&mut self, content: ClipboardContent) -> Result<(), ClipboardError>;

    /// Register a change callback; providers without change events rely on
    /// the polling watcher instead.
    fn on_change(&mut self, callback: Box<dyn ClipboardListener>) -> Result<
        (),
        ClipboardError,
    >;
}

/// An in-memory clipboard whose reads and writes always succeed.
pub struct MockClipboard {
    content: ClipboardContent,
    callbacks: Vec<Box<dyn ClipboardListener>>,
}

impl MockClipboard {
    /// The current content.
    pub closed spec fn spec_content(&self) -> ClipboardContentView {
        self.content@
    }

    /// An empty clipboard.
    pub fn new() -> (r: MockClipboard)
        ensures
            r.spec_content() == ClipboardContentView::Empty,
    {
        MockClipboard { content: ClipboardContent::Empty, callbacks: Vec::new() }
    }

    /// Simulate a user copy: store the content and notify every callback.
    pub fn simulate_copy(&mut self, content: ClipboardContent)
        ensures
            final(self).spec_content() == content@,
    {
        let ghost cv = content@;
        self.content = content;
        let mut i: usize = 0;
        while i < self.callbacks.len()
            invariant
                self.content@ == cv,
            decreases self.callbacks@.len() - i,
        {
            self.callbacks[i].on_copy(self.content.duplicate());
            i = i + 1;
        }
    }
}

impl ClipboardProvider for MockClipboard {
    fn read(&self) -> (r: Result<ClipboardContent, ClipboardError>)
        ensures
            r matches Ok(c) && c@ == self.spec_content(),
    {
        Ok(self.content.duplicate())
    }

    fn write(&mut self, content: ClipboardContent) -> (r: Result<(), ClipboardError>)
        ensures
            r is Ok,
            final(self).spec_content() == content@,
    {
        self.content = content;
        Ok(())
    }

    fn on_change(&mut self, callback: Box<dyn ClipboardListener>) -> (r: Result<
        (),
        ClipboardError,
    >)
        ensures
            r is Ok,
            final(self).spec_content() == old(self).spec_content(),
    {
        self.callbacks.push(callback);
        Ok(())
    }
}

} // verus!
