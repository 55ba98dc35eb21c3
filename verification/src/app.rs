//! Application-level state: errors, the run-time back-end switch, and the
//! image registry that hands out one handle per loaded image.

use vstd::prelude::*;

use crate::render::{BackendSelector, ImageHandle, RenderError};
use crate::text::{contains_str, decimal, has_substring, u64_to_decimal};
use crate::compat::types::str_eq;

verus! {

/// Errors that can occur while building or running an application.
#[derive(Debug)]
pub enum AppError {
    /// The OS event loop failed to start or dispatch.
    EventLoop(String),
    /// The platform window could not be created.
    WindowCreation(String),
    /// The GPU renderer failed to initialise.
    RendererInit(String),
    /// A per-frame render error from the back end.
    Render(RenderError),
    /// Failed to load or decode an image file.
    ImageLoad(String),
    /// Failed to load or rasterize an SVG file.
    SvgLoad(String),
}

impl From<RenderError> for AppError {
    fn from(e: RenderError) -> (a: Self) {
        AppError::Render(e)
    }
}

impl vstd::std_specs::convert::FromSpecImpl<RenderError> for AppError {
    open spec fn obeys_from_spec() -> bool {
        true
    }

    open spec fn from_spec(e: RenderError) -> Self {
        AppError::Render(e)
    }
}

/// Whether an event-loop error message reports an exit failure.
pub open spec fn is_exit_failure(msg: Seq<char>) -> bool {
    has_substring(msg, "Exit Failure"@) || has_substring(msg, "ExitFailure"@)
}

/// How the end of the event loop is reported, given the loop's error (if
/// any), whether the user asked to close the window and whether a frame was
/// drawn: an exit failure after a close request is a normal exit; one
/// before the first frame is reported as a lost display connection; any
/// other error is passed on.
pub fn run_exit_result(error: Option<&str>, close_requested: bool, has_rendered: bool) -> (r: Result<
    (),
    AppError,
>)
    ensures
        match error {
            None => r is Ok,
            Some(msg) => if close_requested && is_exit_failure(msg@) {
                r is Ok
            } else if !has_rendered && is_exit_failure(msg@) {
                r matches Err(AppError::EventLoop(m))
                    && m@ == "display backend disconnected before first frame (e.g. WSLg/Wayland pipe closed)"@
            } else {
                r matches Err(AppError::EventLoop(m)) && m@ == msg@
            },
        },
{
    match error {
        None => Ok(()),
        Some(msg) => {
            let exit_failure = contains_str(msg, "Exit Failure") || contains_str(msg, "ExitFailure");
            if close_requested && exit_failure {
                Ok(())
            } else if !has_rendered && exit_failure {
                Err(
                    AppError::EventLoop(
                        "display backend disconnected before first frame (e.g. WSLg/Wayland pipe closed)".to_owned(),
                    ),
                )
            } else {
                Err(AppError::EventLoop(msg.to_owned()))
            }
        },
    }
}

/// Requests to switch the rendering back end, applied between frames.
#[derive(Debug)]
pub struct BackendSwitcher {
    current: BackendSelector,
    pending: Option<BackendSelector>,
}

impl BackendSwitcher {
    /// The active back end.
    pub closed spec fn current_spec(&self) -> BackendSelector {
        self.current
    }

    /// The requested back end not yet applied.
    pub closed spec fn pending_spec(&self) -> Option<BackendSelector> {
        self.pending
    }

    /// A switcher on `initial` with nothing pending.
    pub fn new(initial: BackendSelector) -> (s: Self)
        ensures
            s.current_spec() == initial,
            s.pending_spec() is None,
    {
        BackendSwitcher { current: initial, pending: None }
    }

    /// Requests a switch to `backend` on the next frame (a later request
    /// replaces an earlier one).
    pub fn switch_to(&mut self, backend: BackendSelector)
        ensures
            final(self).pending_spec() == Some(backend),
            final(self).current_spec() == old(self).current_spec(),
    {
        self.pending = Some(backend);
    }

    /// The active back end.
    pub fn current(&self) -> (b: BackendSelector)
        ensures
            b == self.current_spec(),
    {
        self.current
    }

    /// Applies the pending switch, if any, and returns it.
    pub fn take_pending(&mut self) -> (b: Option<BackendSelector>)
        ensures
            b == old(self).pending_spec(),
            final(self).pending_spec() is None,
            final(self).current_spec() == match b {
                Some(x) => x,
                None => old(self).current_spec(),
            },
    {
        match self.pending {
            Some(b) => {
                self.current = b;
                self.pending = None;
                Some(b)
            },
            None => None,
        }
    }
}

/// A decoded image waiting for GPU upload.
#[derive(Debug)]
pub struct PendingImage {
    pub id: u32,
    pub pixels: Vec<u8>,
    pub width: u32,
    pub height: u32,
}

/// Abstract value of a [`PendingImage`].
pub struct PendingView {
    pub id: u32,
    pub pixels: Seq<u8>,
    pub width: u32,
    pub height: u32,
}

/// The abstract value of a pending image.
pub open spec fn pending_view(p: PendingImage) -> PendingView {
    PendingView { id: p.id, pixels: p.pixels@, width: p.width, height: p.height }
}

/// What loading an image needs next: the handle of an image loaded before,
/// or the pixels of a new one (to be decoded by the caller) under `key`.
#[derive(Debug)]
pub enum ImageLookup {
    Cached(ImageHandle),
    Decode(String),
}

/// Abstract state of an [`ImageRegistry`].
pub struct RegistryView {
    pub next_id: u32,
    /// Keys of the loaded images with their handles, oldest first.
    pub loaded: Seq<(Seq<char>, ImageHandle)>,
    /// The images waiting for upload, oldest first.
    pub pending: Seq<PendingView>,
}

impl RegistryView {
    /// Keys are distinct and every handle was handed out already.
    pub open spec fn wf(self) -> bool {
        &&& forall|i: int, j: int|
            0 <= i < j < self.loaded.len() ==> (#[trigger] self.loaded[i]).0 != (#[trigger] self.loaded[j]).0
        &&& forall|i: int| 0 <= i < self.loaded.len() ==> (#[trigger] self.loaded[i]).1.0 < self.next_id
    }

    /// The handle stored for `key`, if any.
    pub open spec fn handle_of(self, key: Seq<char>) -> Option<ImageHandle> {
        if exists|i: int| 0 <= i < self.loaded.len() && self.loaded[i].0 == key {
            Some(self.loaded[choose|i: int| 0 <= i < self.loaded.len() && self.loaded[i].0 == key].1)
        } else {
            None
        }
    }
}

/// The cache key of an SVG rasterized at `width` x `height`.
pub open spec fn svg_key_spec(path: Seq<char>, width: u32, height: u32) -> Seq<char> {
    "svg:"@ + path + "@"@ + decimal(width as nat) + "x"@ + decimal(height as nat)
}

/// The cache key of an SVG rasterized at `width` x `height`:
/// `svg:<path>@<width>x<height>`.
pub fn svg_key(path: &str, width: u32, height: u32) -> (k: String)
    ensures
        k@ == svg_key_spec(path@, width, height),
{
    let mut k = "svg:".to_owned();
    k.append(path);
    k.append("@");
    let w = u64_to_decimal(width as u64);
    k.append(w.as_str());
    k.append("x");
    let h = u64_to_decimal(height as u64);
    k.append(h.as_str());
    k
}

/// The RGBA8 pixels, width and height that decoding `bytes` as an image in
/// the format named by the file extension of `path` gives, or `None` when
/// that extension names no supported format or the bytes do not decode.
pub uninterp spec fn decoded_rgba8(bytes: Seq<u8>, path: Seq<char>) -> Option<(Seq<u8>, u32, u32)>;

/// Decodes `bytes` with the `image` crate as `image::open` decodes a file:
/// `ImageFormat::from_path` picks the format from the extension of `path`,
/// `load_from_memory_with_format` decodes, and the image is converted to
/// RGBA8.  The contract claims only that the result is the named function
/// of the two arguments, and that a failure is an image-load error.
#[verifier::external_body]
pub fn decode_rgba8(bytes: &[u8], path: &str) -> (r: Result<(Vec<u8>, u32, u32), AppError>)
    ensures
        match r {
            Ok((px, w, h)) => decoded_rgba8(bytes@, path@) == Some((px@, w, h)),
            Err(e) => e is ImageLoad && decoded_rgba8(bytes@, path@) is None,
        },
{
    let format = match image::ImageFormat::from_path(path) {
        Ok(f) => f,
        Err(e) => return Err(AppError::ImageLoad(e.to_string())),
    };
    match image::load_from_memory_with_format(bytes, format) {
        Ok(img) => {
            let img = img.into_rgba8();
            let (w, h) = img.dimensions();
            Ok((img.into_raw(), w, h))
        },
        Err(e) => Err(AppError::ImageLoad(e.to_string())),
    }
}

/// Per-application image registry: one handle per image key, handed out in
/// order, and a queue of decoded images waiting for GPU upload.
pub struct ImageRegistry {
    next_id: u32,
    loaded: Vec<(String, ImageHandle)>,
    pending: Vec<PendingImage>,
}

impl View for ImageRegistry {
    type V = RegistryView;

    closed spec fn view(&self) -> RegistryView {
        RegistryView {
            next_id: self.next_id,
            loaded: self.loaded@.map_values(|e: (String, ImageHandle)| (e.0@, e.1)),
            pending: self.pending@.map_values(|p: PendingImage| pending_view(p)),
        }
    }
}

impl ImageRegistry {
    /// An empty registry.
    pub fn new() -> (r: Self)
        ensures
            r@.wf(),
            r@.next_id == 0,
            r@.loaded.len() == 0,
            r@.pending.len() == 0,
    {
        let r = ImageRegistry { next_id: 0, loaded: Vec::new(), pending: Vec::new() };
        assert(r@.loaded =~= Seq::<(Seq<char>, ImageHandle)>::empty());
        r
    }

    /// The id the next stored image gets.
    pub fn next_id(&self) -> (n: u32)
        ensures
            n == self@.next_id,
    {
        self.next_id
    }

    /// The handle stored under `key`, if any.
    pub fn lookup(&self, key: &str) -> (h: Option<ImageHandle>)
        requires
            self@.wf(),
        ensures
            h == self@.handle_of(key@),
    {
        let ghost v = self@;
        let mut i: usize = 0;
        while i < self.loaded.len()
            invariant
                v == self@,
                v.wf(),
                i <= v.loaded.len(),
                forall|k: int| 0 <= k < i ==> v.loaded[k].0 != key@,
            decreases v.loaded.len() - i,
        {
            assert(v.loaded[i as int] == (self.loaded@[i as int].0@, self.loaded@[i as int].1));
            if str_eq(self.loaded[i].0.as_str(), key) {
                proof {
                    let c = choose|q: int| 0 <= q < v.loaded.len() && v.loaded[q].0 == key@;
                    if c != i {
                        if c < i {
                            assert(v.loaded[c].0 != key@);
                        } else {
                            assert(v.loaded[i as int].0 != v.loaded[c].0);
                        }
                    }
                }
                return Some(self.loaded[i].1);
            }
            i = i + 1;
        }
        None
    }

    /// Starts loading the image under `key`: its handle if it was loaded
    /// before, else a request to decode it.
    pub fn begin(&self, key: &str) -> (s: ImageLookup)
        requires
            self@.wf(),
        ensures
            match self@.handle_of(key@) {
                Some(h) => s == ImageLookup::Cached(h),
                None => s matches ImageLookup::Decode(k) && k@ == key@,
            },
    {
        match self.lookup(key) {
            Some(h) => ImageLookup::Cached(h),
            None => ImageLookup::Decode(key.to_owned()),
        }
    }

    /// Starts loading `path` (an image file, keyed by its path).
    pub fn load(&self, path: &str) -> (s: ImageLookup)
        requires
            self@.wf(),
        ensures
            match self@.handle_of(path@) {
                Some(h) => s == ImageLookup::Cached(h),
                None => s matches ImageLookup::Decode(k) && k@ == path@,
            },
    {
        self.begin(path)
    }

    /// Starts loading `path` as an SVG rasterized at `width` x `height`.
    pub fn load_svg(&self, path: &str, width: u32, height: u32) -> (s: ImageLookup)
        requires
            self@.wf(),
        ensures
            match self@.handle_of(svg_key_spec(path@, width, height)) {
                Some(h) => s == ImageLookup::Cached(h),
                None => s matches ImageLookup::Decode(k) && k@ == svg_key_spec(path@, width, height),
            },
    {
        let key = svg_key(path, width, height);
        self.begin(key.as_str())
    }

    /// Finishes loading the image under `key` with what decoding gave: a
    /// decoding error is handed back; decoded pixels get the next handle,
    /// are stored under `key` and queued for upload.
    pub fn finish(&mut self, key: &str, decoded: Result<(Vec<u8>, u32, u32), AppError>) -> (r: Result<ImageHandle, AppError>)
        requires
            old(self)@.wf(),
            old(self)@.handle_of(key@) is None,
            old(self)@.next_id < u32::MAX,
        ensures
            final(self)@.wf(),
            match r {
                Ok(h) => {
                    &&& decoded is Ok
                    &&& h == ImageHandle(old(self)@.next_id)
                    &&& final(self)@.next_id == old(self)@.next_id + 1
                    &&& final(self)@.loaded == old(self)@.loaded.push((key@, h))
                    &&& final(self)@.handle_of(key@) == Some(h)
                    &&& final(self)@.pending == old(self)@.pending.push(
                        PendingView {
                            id: h.0,
                            pixels: decoded->Ok_0.0@,
                            width: decoded->Ok_0.1,
                            height: decoded->Ok_0.2,
                        },
                    )
                },
                Err(e) => (decoded matches Err(d) && e == d) && final(self)@ == old(self)@,
            },
    {
        let (pixels, width, height) = match decoded {
            Ok(d) => d,
            Err(e) => return Err(e),
        };
        let ghost old_v = self@;
        let ghost px = pixels@;
        let id = self.next_id;
        self.next_id = id + 1;
        self.pending.push(PendingImage { id, pixels, width, height });
        let handle = ImageHandle(id);
        self.loaded.push((key.to_owned(), handle));
        proof {
            assert(self@.loaded =~= old_v.loaded.push((key@, handle)));
            assert(self@.pending =~= old_v.pending.push(
                PendingView { id, pixels: px, width, height },
            ));
            let n = old_v.loaded.len() as int;
            assert(self@.loaded[n].0 == key@);
            let c = choose|q: int| 0 <= q < self@.loaded.len() && self@.loaded[q].0 == key@;
            if c < n {
                assert(self@.loaded[c] == old_v.loaded[c]);
                assert(old_v.loaded[c].0 == key@);
                assert(false);
            }
        }
        Ok(handle)
    }

    /// Loads the image file `path` whose content is `bytes`, in the format
    /// its extension names: the cached handle when `path` was loaded before;
    /// else the decoded pixels get the next handle, are stored under `path`
    /// and queued for upload; a decoding failure is an image-load error and
    /// changes nothing.
    pub fn load_bytes(&mut self, path: &str, bytes: &[u8]) -> (r: Result<ImageHandle, AppError>)
        requires
            old(self)@.wf(),
            old(self)@.handle_of(path@) is None ==> old(self)@.next_id < u32::MAX,
        ensures
            final(self)@.wf(),
            match old(self)@.handle_of(path@) {
                Some(h) => r matches Ok(x) && x == h && final(self)@ == old(self)@,
                None => match decoded_rgba8(bytes@, path@) {
                    None => r matches Err(e) && e is ImageLoad && final(self)@ == old(self)@,
                    Some(d) => {
                        &&& r matches Ok(x) && x == ImageHandle(old(self)@.next_id)
                        &&& final(self)@ == (RegistryView {
                            next_id: (old(self)@.next_id + 1) as u32,
                            loaded: old(self)@.loaded.push((path@, ImageHandle(old(self)@.next_id))),
                            pending: old(self)@.pending.push(
                                PendingView { id: old(self)@.next_id, pixels: d.0, width: d.1, height: d.2 },
                            ),
                        })
                    },
                },
            },
    {
        if let Some(h) = self.lookup(path) {
            return Ok(h);
        }
        match decode_rgba8(bytes, path) {
            Ok(d) => self.finish(path, Ok(d)),
            Err(e) => Err(e),
        }
    }

    /// Drains the images waiting for upload, oldest first.
    pub fn take_pending(&mut self) -> (p: Vec<PendingImage>)
        requires
            old(self)@.wf(),
        ensures
            final(self)@.wf(),
            p@.map_values(|x: PendingImage| pending_view(x)) == old(self)@.pending,
            final(self)@ == (RegistryView { pending: Seq::empty(), ..old(self)@ }),
    {
        let mut out: Vec<PendingImage> = Vec::new();
        std::mem::swap(&mut out, &mut self.pending);
        assert(self@.pending =~= Seq::<PendingView>::empty());
        out
    }
}

/// A successful load is read back: afterwards the same key gives the same
/// handle without decoding again.
pub proof fn lemma_loaded_key_is_cached(before: RegistryView, key: Seq<char>, h: ImageHandle, pending: PendingView)
    requires
        before.wf(),
        before.handle_of(key) is None,
        h == ImageHandle(before.next_id),
    ensures
        (RegistryView {
            next_id: (before.next_id + 1) as u32,
            loaded: before.loaded.push((key, h)),
            pending: before.pending.push(pending),
        }).handle_of(key) == Some(h),
{
    let after = RegistryView {
        next_id: (before.next_id + 1) as u32,
        loaded: before.loaded.push((key, h)),
        pending: before.pending.push(pending),
    };
    let n = before.loaded.len() as int;
    assert(after.loaded[n].0 == key);
    let c = choose|q: int| 0 <= q < after.loaded.len() && after.loaded[q].0 == key;
    if c < n {
        assert(after.loaded[c] == before.loaded[c]);
        assert(false);
    }
}

} // verus!
