//! The web renderer of a build without a browser engine.

use std::convert::Infallible;
use std::sync::Arc;
use vstd::prelude::*;

verus! {

/// Width and height of a texture, in pixels.
#[derive(Clone, Copy, Debug, PartialEq, Eq, Structural)]
pub struct Resolution {
    pub width: usize,
    pub height: usize,
}

/// What a web renderer instance is asked to show.
#[derive(Debug)]
pub struct WebRendererSpec {
    pub url: String,
    pub resolution: Resolution,
}

/// What a renderer may consult while it is being registered. This build has
/// no browser engine, so there is nothing in it.
#[derive(Debug)]
pub struct RegisterCtx {}

/// What a renderer may consult during one tick.
#[derive(Clone, Copy, Debug)]
pub struct RenderCtx {
    /// Presentation timestamp of the tick.
    pub pts: u64,
}

/// The texture a node renders into: nothing yet, or a surface of some size.
#[derive(Clone, Copy, Debug, PartialEq, Eq, Structural)]
pub struct NodeTexture {
    pub resolution: Option<Resolution>,
}

/// `wgpu::Buffer`, a GPU buffer. The library only passes such values along.
#[verifier::external_type_specification]
#[verifier::external_body]
pub struct ExBuffer(wgpu::Buffer);

/// Why a web renderer could not be created.
#[derive(Clone, Copy, Debug, PartialEq, Eq, Structural)]
pub enum CreateWebRendererError {
    WebRenderingNotAvailable,
}

impl CreateWebRendererError {
    /// What the error says.
    pub open spec fn spec_message(self) -> Seq<char> {
        "Web rendering feature is not available"@
    }

    /// The text shown to a user.
    pub fn message(&self) -> (text: String)
        ensures
            text@ == self.spec_message(),
    {
        "Web rendering feature is not available".to_owned()
    }
}

/// Why a web page could not be rendered. The renderer of this build renders
/// nothing and so never fails: the one variant holds a value of a type that
/// has none, so this type has no value either.
#[derive(Debug)]
pub enum RenderWebsiteError {
    Never(Infallible),
}

/// Stand-in for the web renderer in a build without a browser engine.
#[derive(Debug)]
pub struct WebRenderer {
    spec: WebRendererSpec,
}

impl WebRenderer {
    /// Creating a renderer always fails: the capability is absent.
    pub fn new(_ctx: &RegisterCtx, _spec: WebRendererSpec) -> (res: Result<
        Self,
        CreateWebRendererError,
    >)
        ensures
            res == Err::<Self, CreateWebRendererError>(
                CreateWebRendererError::WebRenderingNotAvailable,
            ),
    {
        Err(CreateWebRendererError::WebRenderingNotAvailable)
    }

    /// Renders nothing: succeeds and leaves the target as it was.
    pub fn render(
        &self,
        _ctx: &RenderCtx,
        _sources: &[&NodeTexture],
        _buffers: &[Arc<wgpu::Buffer>],
        _target: &mut NodeTexture,
    ) -> (res: Result<(), RenderWebsiteError>)
        ensures
            res is Ok,
            *final(_target) == *old(_target),
    {
        Ok(())
    }

    /// The resolution that the instance was specified with.
    pub closed spec fn spec_resolution(&self) -> Resolution {
        self.spec.resolution
    }

    /// The resolution the instance was specified with.
    #[verifier::when_used_as_spec(spec_resolution)]
    pub fn resolution(&self) -> (res: Resolution)
        ensures
            res == self.spec_resolution(),
    {
        self.spec.resolution
    }
}

} // verus!
