use light_2d::pipeline::{
    next_pass_state, pipeline_for_frame, BindingKind, LightingPipeline, LightingPipelineKey,
    PassEvent, PassState, SpecializedPipelines, TextureFormat,
};

#[test]
fn layout_has_two_textures_and_a_sampler() {
    let p = LightingPipeline::new();
    assert_eq!(p.layout.scene_texture, BindingKind::FilterableTexture2d);
    assert_eq!(p.layout.auxiliary_texture, BindingKind::FilterableTexture2d);
    assert_eq!(p.layout.sampler, BindingKind::FilteringSampler);
}

#[test]
fn format_follows_the_key() {
    let p = LightingPipeline::new();
    let hdr = p.specialize(LightingPipelineKey { hdr: true });
    let sdr = p.specialize(LightingPipelineKey { hdr: false });
    assert_eq!(hdr.format, TextureFormat::Rgba16Float);
    assert_eq!(sdr.format, TextureFormat::Rgba8UnormSrgb);
    assert!(!hdr.blend && hdr.write_all_channels);
    assert_eq!(hdr.layout, p.layout);
}

#[test]
fn same_key_reuses_the_cached_pipeline() {
    let p = LightingPipeline::new();
    let mut cache = SpecializedPipelines::new();
    let key = LightingPipelineKey { hdr: true };
    let first = cache.specialize(&p, key);
    let second = cache.specialize(&p, key);
    assert_eq!(first, second);
    assert_eq!(cache.get(key), Some(first));
    assert_eq!(cache.build(first).format, TextureFormat::Rgba16Float);
}

#[test]
fn new_key_builds_once_more() {
    let p = LightingPipeline::new();
    let mut cache = SpecializedPipelines::new();
    assert_eq!(cache.get(LightingPipelineKey { hdr: false }), None);
    let a = cache.specialize(&p, LightingPipelineKey { hdr: false });
    let b = cache.specialize(&p, LightingPipelineKey { hdr: true });
    let c = cache.specialize(&p, LightingPipelineKey { hdr: false });
    assert_eq!((a, b, c), (0, 1, 0));
    assert_eq!(cache.build(a).format, TextureFormat::Rgba8UnormSrgb);
    assert_eq!(cache.build(b).format, TextureFormat::Rgba16Float);
}

#[test]
fn invalidated_cache_builds_again() {
    let p = LightingPipeline::new();
    let mut cache = SpecializedPipelines::new();
    let key = LightingPipelineKey { hdr: false };
    assert_eq!(cache.specialize(&p, key), 0);
    cache.invalidate();
    assert_eq!(cache.get(key), None);
    assert_eq!(cache.specialize(&p, key), 0);
    assert_eq!(cache.get(key), Some(0));
}

#[test]
fn failure_disables_pass_until_rebuilt() {
    let mut s = PassState::Pending;
    assert_eq!(pipeline_for_frame(s), None);
    s = next_pass_state(s, PassEvent::Built { pipeline: 3 });
    assert_eq!(pipeline_for_frame(s), Some(3));
    s = next_pass_state(s, PassEvent::DeviceLost);
    assert_eq!(s, PassState::Disabled);
    assert_eq!(pipeline_for_frame(s), None);
    s = next_pass_state(s, PassEvent::BuildFailed);
    assert_eq!(pipeline_for_frame(s), None);
    s = next_pass_state(s, PassEvent::Built { pipeline: 4 });
    assert_eq!(pipeline_for_frame(s), Some(4));
}
