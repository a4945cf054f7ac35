use live_compositor::web_renderer::{
    CreateWebRendererError, NodeTexture, RegisterCtx, Resolution, WebRenderer, WebRendererSpec,
};

fn spec() -> WebRendererSpec {
    WebRendererSpec {
        url: "https://example.com".to_string(),
        resolution: Resolution { width: 1280, height: 720 },
    }
}

#[test]
fn creating_a_web_renderer_fails() {
    let res = WebRenderer::new(&RegisterCtx {}, spec());
    assert!(matches!(res, Err(CreateWebRendererError::WebRenderingNotAvailable)));
}

#[test]
fn creating_a_web_renderer_fails_for_every_spec() {
    let other = WebRendererSpec {
        url: String::new(),
        resolution: Resolution { width: 0, height: 0 },
    };
    assert!(WebRenderer::new(&RegisterCtx {}, other).is_err());
}

#[test]
fn the_error_says_that_the_feature_is_missing() {
    let err = CreateWebRendererError::WebRenderingNotAvailable;
    assert_eq!(err.message(), "Web rendering feature is not available");
}

#[test]
fn node_textures_compare_by_resolution() {
    let a = NodeTexture { resolution: Some(Resolution { width: 4, height: 3 }) };
    let b = NodeTexture { resolution: Some(Resolution { width: 4, height: 3 }) };
    let c = NodeTexture { resolution: None };
    assert_eq!(a, b);
    assert_ne!(a, c);
}
