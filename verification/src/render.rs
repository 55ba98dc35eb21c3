//! Renderer-facing value types and back-end selection: render errors, image
//! handles, blend modes, the back-end selector with its build features, and
//! the headless CPU and CUDA renderers.

use vstd::prelude::*;

use crate::text::{concat_chars, str_chars};

verus! {

/// Errors of the rendering back ends.
#[derive(Debug)]
pub enum RenderError {
    /// The surface was lost; recreate the swap-chain.
    SurfaceLost,
    /// The GPU device was lost.
    DeviceLost(String),
    /// The GPU timed out.
    Timeout,
    /// The back end is not compiled in.
    BackendUnavailable,
    /// An image could not be loaded.
    ImageLoad(String),
    /// Any other GPU error.
    Other(String),
}

/// Errors of the rendering back ends as values of the specification.
pub enum RenderErrorView {
    SurfaceLost,
    DeviceLost(Seq<char>),
    Timeout,
    BackendUnavailable,
    ImageLoad(Seq<char>),
    Other(Seq<char>),
}

/// The specification value of a render error.
pub open spec fn render_error_view(e: RenderError) -> RenderErrorView {
    match e {
        RenderError::SurfaceLost => RenderErrorView::SurfaceLost,
        RenderError::DeviceLost(s) => RenderErrorView::DeviceLost(s@),
        RenderError::Timeout => RenderErrorView::Timeout,
        RenderError::BackendUnavailable => RenderErrorView::BackendUnavailable,
        RenderError::ImageLoad(s) => RenderErrorView::ImageLoad(s@),
        RenderError::Other(s) => RenderErrorView::Other(s@),
    }
}

impl RenderError {
    /// The error's message.
    pub fn message(&self) -> (m: String)
        ensures
            m@ == match self {
                RenderError::SurfaceLost => "surface lost; recreate the swap-chain"@,
                RenderError::DeviceLost(s) => "GPU device lost: "@ + s@,
                RenderError::Timeout => "GPU timeout"@,
                RenderError::BackendUnavailable => "backend not available; check feature flags or installed CUDA"@,
                RenderError::ImageLoad(s) => "image load error: "@ + s@,
                RenderError::Other(s) => "GPU error: "@ + s@,
            },
    {
        match self {
            RenderError::SurfaceLost => "surface lost; recreate the swap-chain".to_owned(),
            RenderError::DeviceLost(s) => {
                let mut m = "GPU device lost: ".to_owned();
                m.append(s.as_str());
                m
            },
            RenderError::Timeout => "GPU timeout".to_owned(),
            RenderError::BackendUnavailable => "backend not available; check feature flags or installed CUDA".to_owned(),
            RenderError::ImageLoad(s) => {
                let mut m = "image load error: ".to_owned();
                m.append(s.as_str());
                m
            },
            RenderError::Other(s) => {
                let mut m = "GPU error: ".to_owned();
                m.append(s.as_str());
                m
            },
        }
    }
}

/// An opaque handle to a GPU-uploaded image.
#[derive(Debug, Clone, Copy, PartialEq, Eq, Structural, Hash)]
pub struct ImageHandle(pub u32);

/// How a draw command blends with what is already drawn.
#[derive(Debug, Clone, Copy, PartialEq, Eq, Structural, Hash)]
pub enum BlendMode {
    /// Standard alpha compositing (src-over).
    Alpha,
    /// Fully opaque; no blending.
    Opaque,
    /// Additive blending.
    Additive,
}

impl Default for BlendMode {
    fn default() -> (m: Self)
        ensures
            m == BlendMode::Alpha,
    {
        BlendMode::Alpha
    }
}

/// The rendering back ends an application can select at run time.
#[derive(Debug, Clone, Copy, PartialEq, Eq, Structural)]
pub enum BackendSelector {
    /// The wgpu back end (cross-platform, GPU-accelerated).
    Wgpu,
    /// The CUDA back end (NVIDIA GPUs only).
    Cuda,
    /// The CPU back end (headless, no GPU).
    Cpu,
}

/// Which back ends a build carries.
#[derive(Debug, Clone, Copy, PartialEq, Eq, Structural)]
pub struct BackendFeatures {
    pub wgpu: bool,
    pub cuda: bool,
    pub cpu: bool,
}

impl BackendFeatures {
    /// The back ends of the default build: wgpu alone, as the default
    /// feature set names it.  The set is a value, so that every other
    /// combination can be handed to the selection logic as well.
    pub open spec fn spec_compiled() -> Self {
        BackendFeatures { wgpu: true, cuda: false, cpu: false }
    }

    /// The back ends of the default build: wgpu alone (see `spec_compiled`).
    #[verifier::when_used_as_spec(spec_compiled)]
    pub fn compiled() -> (f: Self)
        ensures
            f == Self::spec_compiled(),
    {
        BackendFeatures { wgpu: true, cuda: false, cpu: false }
    }

    /// A build without any back end.
    pub fn none() -> (f: Self)
        ensures
            f == (BackendFeatures { wgpu: false, cuda: false, cpu: false }),
    {
        BackendFeatures { wgpu: false, cuda: false, cpu: false }
    }

    /// Whether the build carries `backend`.
    pub open spec fn has(self, backend: BackendSelector) -> bool {
        match backend {
            BackendSelector::Wgpu => self.wgpu,
            BackendSelector::Cuda => self.cuda,
            BackendSelector::Cpu => self.cpu,
        }
    }

    /// The back ends of the build, in the order wgpu, CUDA, CPU.
    pub open spec fn listed(self) -> Seq<BackendSelector> {
        (if self.wgpu {
            seq![BackendSelector::Wgpu]
        } else {
            Seq::empty()
        }) + (if self.cuda {
            seq![BackendSelector::Cuda]
        } else {
            Seq::empty()
        }) + (if self.cpu {
            seq![BackendSelector::Cpu]
        } else {
            Seq::empty()
        })
    }
}

/// The display name of each back end.
pub open spec fn backend_name(b: BackendSelector) -> Seq<char> {
    match b {
        BackendSelector::Wgpu => "wgpu"@,
        BackendSelector::Cuda => "CUDA"@,
        BackendSelector::Cpu => "CPU"@,
    }
}

/// The code of the ASCII lower-case form of `c`.
pub open spec fn ascii_lower(c: char) -> int {
    if 'A' <= c && c <= 'Z' {
        (c as u32) + 32
    } else {
        c as u32 as int
    }
}

/// `a` and `b` are equal up to ASCII case (std's `eq_ignore_ascii_case`).
pub open spec fn eq_ignore_ascii_case(a: Seq<char>, b: Seq<char>) -> bool {
    a.len() == b.len() && forall|i: int| 0 <= i < a.len() ==> ascii_lower(#[trigger] a[i]) == ascii_lower(
        b[i],
    )
}

/// The back end a name denotes (case-insensitively), if any.
pub open spec fn backend_named(s: Seq<char>) -> Option<BackendSelector> {
    if eq_ignore_ascii_case(s, "wgpu"@) {
        Some(BackendSelector::Wgpu)
    } else if eq_ignore_ascii_case(s, "cuda"@) {
        Some(BackendSelector::Cuda)
    } else if eq_ignore_ascii_case(s, "cpu"@) {
        Some(BackendSelector::Cpu)
    } else {
        None
    }
}

/// The names of `backends` joined with `, `.
pub open spec fn joined_names(backends: Seq<BackendSelector>) -> Seq<char>
    decreases backends.len(),
{
    if backends.len() == 0 {
        Seq::empty()
    } else if backends.len() == 1 {
        backend_name(backends[0])
    } else {
        joined_names(backends.drop_last()) + ", "@ + backend_name(backends.last())
    }
}

fn lower_char(c: char) -> (l: u32)
    ensures
        l == ascii_lower(c),
{
    if 'A' <= c && c <= 'Z' {
        c as u32 + 32
    } else {
        c as u32
    }
}

fn eq_ignore_case(a: &str, b: &str) -> (r: bool)
    ensures
        r == eq_ignore_ascii_case(a@, b@),
{
    let x = str_chars(a);
    let y = str_chars(b);
    if x.len() != y.len() {
        return false;
    }
    let mut i: usize = 0;
    while i < x.len()
        invariant
            x@ == a@,
            y@ == b@,
            x@.len() == y@.len(),
            i <= x@.len(),
            forall|k: int| 0 <= k < i ==> ascii_lower(#[trigger] x@[k]) == ascii_lower(y@[k]),
        decreases x@.len() - i,
    {
        if lower_char(x[i]) != lower_char(y[i]) {
            return false;
        }
        i = i + 1;
    }
    true
}

impl BackendSelector {
    /// The back ends `features` carries, in the order wgpu, CUDA, CPU.
    pub fn available_in(features: BackendFeatures) -> (v: Vec<Self>)
        ensures
            v@ == features.listed(),
    {
        let mut v: Vec<Self> = Vec::new();
        if features.wgpu {
            v.push(BackendSelector::Wgpu);
        }
        if features.cuda {
            v.push(BackendSelector::Cuda);
        }
        if features.cpu {
            v.push(BackendSelector::Cpu);
        }
        proof {
            assert(v@ =~= features.listed());
        }
        v
    }

    /// The back ends this build carries.
    pub fn available() -> (v: Vec<Self>)
        ensures
            v@ == BackendFeatures::spec_compiled().listed(),
    {
        Self::available_in(BackendFeatures::compiled())
    }

    /// Whether `features` carries this back end.
    pub fn is_available_in(&self, features: BackendFeatures) -> (b: bool)
        ensures
            b == features.has(*self),
    {
        match self {
            BackendSelector::Wgpu => features.wgpu,
            BackendSelector::Cuda => features.cuda,
            BackendSelector::Cpu => features.cpu,
        }
    }

    /// Whether this build carries this back end.
    pub fn is_available(&self) -> (b: bool)
        ensures
            b == BackendFeatures::spec_compiled().has(*self),
    {
        self.is_available_in(BackendFeatures::compiled())
    }

    /// The display name of this back end.
    pub fn name(&self) -> (s: &'static str)
        ensures
            s@ == backend_name(*self),
    {
        match self {
            BackendSelector::Wgpu => "wgpu",
            BackendSelector::Cuda => "CUDA",
            BackendSelector::Cpu => "CPU",
        }
    }

    /// The display name as an owned string (what `Display` printed).
    pub fn to_string(&self) -> (s: String)
        ensures
            s@ == backend_name(*self),
    {
        self.name().to_owned()
    }

    /// Why a renderer cannot be built from the selector alone in a build
    /// with `features`: a back end that is not carried is unavailable; one
    /// that is needs a window or its own crate, which the application sets up.
    pub fn create_in(&self, features: BackendFeatures) -> (e: RenderError)
        ensures
            !features.has(*self) ==> e is BackendUnavailable,
            features.has(*self) ==> render_error_view(e) == RenderErrorView::Other(
                match *self {
                    BackendSelector::Wgpu => "wgpu renderer creation requires window context; use webgpui-app for full integration"@,
                    BackendSelector::Cuda => "CUDA renderer creation requires window context; use webgpui-app for full integration"@,
                    BackendSelector::Cpu => "CPU renderer creation requires webgpui-render-cpu crate integration"@,
                },
            ),
    {
        if !self.is_available_in(features) {
            return RenderError::BackendUnavailable;
        }
        match self {
            BackendSelector::Wgpu => RenderError::Other(
                "wgpu renderer creation requires window context; use webgpui-app for full integration".to_owned(),
            ),
            BackendSelector::Cuda => RenderError::Other(
                "CUDA renderer creation requires window context; use webgpui-app for full integration".to_owned(),
            ),
            BackendSelector::Cpu => RenderError::Other(
                "CPU renderer creation requires webgpui-render-cpu crate integration".to_owned(),
            ),
        }
    }

    /// Creating a renderer from the selector alone always fails; the error
    /// says why (see [`BackendSelector::create_in`]).
    pub fn create(&self) -> (r: Result<(), RenderError>)
        ensures
            r matches Err(e) && (!BackendFeatures::spec_compiled().has(*self) ==> e is BackendUnavailable)
                && (*self == BackendSelector::Wgpu ==> render_error_view(e) == RenderErrorView::Other(
                "wgpu renderer creation requires window context; use webgpui-app for full integration"@,
            )),
    {
        Err(self.create_in(BackendFeatures::compiled()))
    }

    /// Parses a back-end name, ignoring ASCII case.  An unknown name gives an
    /// error that lists the back ends this build carries.
    pub fn parse(s: &str) -> (r: Result<Self, RenderError>)
        ensures
            match backend_named(s@) {
                Some(b) => r matches Ok(x) && x == b,
                None => r matches Err(e) && render_error_view(e) == RenderErrorView::Other(
                    "unknown backend '"@ + s@ + "'; available: "@ + joined_names(
                        BackendFeatures::spec_compiled().listed(),
                    ),
                ),
            },
    {
        if eq_ignore_case(s, "wgpu") {
            Ok(BackendSelector::Wgpu)
        } else if eq_ignore_case(s, "cuda") {
            Ok(BackendSelector::Cuda)
        } else if eq_ignore_case(s, "cpu") {
            Ok(BackendSelector::Cpu)
        } else {
            let available = Self::available();
            let mut names = String::new();
            let mut i: usize = 0;
            while i < available.len()
                invariant
                    available@ == BackendFeatures::spec_compiled().listed(),
                    i <= available@.len(),
                    names@ == joined_names(available@.subrange(0, i as int)),
                decreases available@.len() - i,
            {
                assert(available@.subrange(0, i + 1).drop_last() =~= available@.subrange(0, i as int));
                if i > 0 {
                    names.append(", ");
                }
                names.append(available[i].name());
                proof {
                    if i == 0 {
                        assert(names@ =~= joined_names(available@.subrange(0, 1)));
                    }
                }
                i = i + 1;
            }
            assert(available@.subrange(0, available@.len() as int) =~= available@);
            let mut m = "unknown backend '".to_owned();
            m.append(s);
            m.append("'; available: ");
            m.append(names.as_str());
            Err(RenderError::Other(m))
        }
    }
}

impl std::str::FromStr for BackendSelector {
    type Err = RenderError;

    fn from_str(s: &str) -> (r: Result<Self, RenderError>)
        ensures
            match backend_named(s@) {
                Some(b) => r matches Ok(x) && x == b,
                None => r matches Err(e) && render_error_view(e) == RenderErrorView::Other(
                    "unknown backend '"@ + s@ + "'; available: "@ + joined_names(
                        BackendFeatures::spec_compiled().listed(),
                    ),
                ),
            },
    {
        BackendSelector::parse(s)
    }
}

/// A headless renderer: it accepts frames and counts them and their draw
/// commands, without producing output.
#[derive(Debug)]
pub struct CpuRenderer {
    surface_width: u32,
    surface_height: u32,
    frame_count: u64,
    total_commands: u64,
}

impl CpuRenderer {
    /// Creates a CPU renderer with the given surface size.
    pub fn new(width: u32, height: u32) -> (r: Result<Self, RenderError>)
        ensures
            r matches Ok(c) && c.surface_size_spec() == (width, height) && c.frame_count_spec() == 0
                && c.total_commands_spec() == 0,
    {
        Ok(CpuRenderer { surface_width: width, surface_height: height, frame_count: 0, total_commands: 0 })
    }

    /// The surface size.
    pub closed spec fn surface_size_spec(&self) -> (u32, u32) {
        (self.surface_width, self.surface_height)
    }

    /// The number of frames rendered.
    pub closed spec fn frame_count_spec(&self) -> u64 {
        self.frame_count
    }

    /// The number of draw commands processed.
    pub closed spec fn total_commands_spec(&self) -> u64 {
        self.total_commands
    }

    /// Returns the number of frames rendered so far.
    pub fn frame_count(&self) -> (n: u64)
        ensures
            n == self.frame_count_spec(),
    {
        self.frame_count
    }

    /// Returns the total number of draw commands processed.
    pub fn total_commands(&self) -> (n: u64)
        ensures
            n == self.total_commands_spec(),
    {
        self.total_commands
    }

    /// Resizes the surface.
    pub fn resize(&mut self, width: u32, height: u32)
        ensures
            final(self).surface_size_spec() == (width, height),
            final(self).frame_count_spec() == old(self).frame_count_spec(),
            final(self).total_commands_spec() == old(self).total_commands_spec(),
    {
        self.surface_width = width;
        self.surface_height = height;
    }

    /// The surface size in pixels.
    pub fn surface_size(&self) -> (s: (u32, u32))
        ensures
            s == self.surface_size_spec(),
    {
        (self.surface_width, self.surface_height)
    }

    /// Renders a frame of `commands` draw commands: counts the frame and the
    /// commands.
    pub fn render(&mut self, commands: usize) -> (r: Result<(), RenderError>)
        requires
            old(self).frame_count_spec() < u64::MAX,
            old(self).total_commands_spec() + commands <= u64::MAX,
        ensures
            r is Ok,
            final(self).frame_count_spec() == old(self).frame_count_spec() + 1,
            final(self).total_commands_spec() == old(self).total_commands_spec() + commands,
            final(self).surface_size_spec() == old(self).surface_size_spec(),
    {
        self.frame_count = self.frame_count + 1;
        self.total_commands = self.total_commands + commands as u64;
        Ok(())
    }
}

/// The CUDA renderer of a build without CUDA support.
#[derive(Debug)]
pub struct CudaRenderer;

impl CudaRenderer {
    /// CUDA support is not compiled in: always an error that says so.
    pub fn new() -> (r: Result<Self, &'static str>)
        ensures
            r matches Err(m) && m@ == "CUDA support disabled; enable 'backend-cuda' feature in Cargo.toml"@,
    {
        Err("CUDA support disabled; enable 'backend-cuda' feature in Cargo.toml")
    }
}

} // verus!
