//! Clipboard mock tests: reads, writes, and change callbacks.

use std::sync::{Arc, Mutex};

use openclipboard::{ClipboardContent, ClipboardListener, ClipboardProvider, MockClipboard};

fn text(s: &str) -> ClipboardContent {
    ClipboardContent::Text(s.to_string())
}

fn content_eq(a: &ClipboardContent, b: &ClipboardContent) -> bool {
    a.same_as(b)
}

#[test]
fn mock_read_write() {
    let mut cb = MockClipboard::new();
    assert!(content_eq(&cb.read().unwrap(), &ClipboardContent::Empty));
    cb.write(text("hello")).unwrap();
    assert!(content_eq(&cb.read().unwrap(), &text("hello")));
}

#[test]
fn mock_image_read_write() {
    let mut cb = MockClipboard::new();
    let img = ClipboardContent::Image {
        mime: "image/png".into(),
        width: 2,
        height: 2,
        bytes: vec![1, 2, 3],
    };
    cb.write(img.duplicate()).unwrap();
    assert!(content_eq(&cb.read().unwrap(), &img));
}

struct Recorder {
    seen: Arc<Mutex<Vec<ClipboardContent>>>,
}

impl ClipboardListener for Recorder {
    fn on_copy(&self, content: ClipboardContent) {
        self.seen.lock().unwrap().push(content);
    }
}

#[test]
fn mock_on_change() {
    let mut cb = MockClipboard::new();
    let received: Arc<Mutex<Vec<ClipboardContent>>> = Arc::new(Mutex::new(Vec::new()));
    let r = received.clone();
    cb.on_change(Box::new(Recorder { seen: r })).unwrap();
    cb.simulate_copy(text("test"));
    assert_eq!(received.lock().unwrap().len(), 1);
}
