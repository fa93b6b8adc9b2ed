//! The lighting pipeline: its binding layout, its specialisation by output
//! format, and the cache that builds each specialisation once.
use vstd::prelude::*;

verus! {

/// What the lighting pass reads in its fragment stage.
#[derive(Clone, Copy, Debug, PartialEq, Eq, Structural)]
pub enum BindingKind {
    /// A 2D texture of filterable floats.
    FilterableTexture2d,
    /// A filtering sampler.
    FilteringSampler,
}

/// Output color formats.
#[derive(Clone, Copy, Debug, PartialEq, Eq, Structural)]
pub enum TextureFormat {
    /// Four 16-bit float channels, for high-dynamic-range output.
    Rgba16Float,
    /// Four 8-bit sRGB channels, the display's default.
    Rgba8UnormSrgb,
}

/// The binding layout of the lighting pass: scene color, an auxiliary
/// texture, and the sampler for both, in that order.
#[derive(Clone, Copy, Debug, PartialEq, Eq, Structural)]
pub struct BindGroupLayout {
    pub scene_texture: BindingKind,
    pub auxiliary_texture: BindingKind,
    pub sampler: BindingKind,
}

/// What selects a specialisation of the lighting pipeline.
#[derive(Clone, Copy, Debug, PartialEq, Eq, Structural)]
pub struct LightingPipelineKey {
    pub hdr: bool,
}

/// The name a pipeline is built under.
#[derive(Clone, Copy, Debug, PartialEq, Eq, Structural)]
pub enum PipelineLabel {
    /// "lighting_pipeline".
    Lighting,
}

/// Vertex stages.
#[derive(Clone, Copy, Debug, PartialEq, Eq, Structural)]
pub enum VertexStage {
    /// The engine's full-screen pass: no per-vertex lighting data.
    Fullscreen,
}

/// Fragment shaders.
#[derive(Clone, Copy, Debug, PartialEq, Eq, Structural)]
pub enum FragmentShader {
    /// The lighting shader, at its entry point `fragment`.
    LightingFragment,
}

/// Primitive topologies.
#[derive(Clone, Copy, Debug, PartialEq, Eq, Structural)]
pub enum PrimitiveTopology {
    /// The default: a list of triangles, no culling.
    TriangleList,
}

/// Everything needed to build one specialisation: its label, the shared
/// layout, the vertex stage, the fragment shader with its shader definitions
/// and its single color target (`format`, with or without blending, with a
/// write mask), the primitive state, the depth-stencil state, the sample
/// count, the push-constant ranges, and whether workgroup memory is zeroed.
#[derive(Clone, Copy, Debug, PartialEq, Eq, Structural)]
pub struct RenderPipelineDescriptor {
    pub label: PipelineLabel,
    pub layout: BindGroupLayout,
    pub vertex: VertexStage,
    pub fragment: FragmentShader,
    pub shader_defs: usize,
    pub format: TextureFormat,
    pub blend: bool,
    pub write_all_channels: bool,
    pub primitive: PrimitiveTopology,
    pub depth_stencil: bool,
    pub sample_count: u32,
    pub push_constant_ranges: usize,
    pub zero_initialize_workgroup_memory: bool,
}

/// The lighting pipeline's shared parts, built once per device.
#[derive(Clone, Copy, Debug)]
pub struct LightingPipeline {
    pub layout: BindGroupLayout,
}

/// The output format for a key: floats for high dynamic range, else the
/// display's default.
pub open spec fn format_for(key: LightingPipelineKey) -> TextureFormat {
    if key.hdr {
        TextureFormat::Rgba16Float
    } else {
        TextureFormat::Rgba8UnormSrgb
    }
}

pub open spec fn lighting_layout() -> BindGroupLayout {
    BindGroupLayout {
        scene_texture: BindingKind::FilterableTexture2d,
        auxiliary_texture: BindingKind::FilterableTexture2d,
        sampler: BindingKind::FilteringSampler,
    }
}

pub open spec fn descriptor_for(p: LightingPipeline, key: LightingPipelineKey) -> RenderPipelineDescriptor {
    RenderPipelineDescriptor {
        label: PipelineLabel::Lighting,
        layout: p.layout,
        vertex: VertexStage::Fullscreen,
        fragment: FragmentShader::LightingFragment,
        shader_defs: 0,
        format: format_for(key),
        blend: false,
        write_all_channels: true,
        primitive: PrimitiveTopology::TriangleList,
        depth_stencil: false,
        sample_count: 1,
        push_constant_ranges: 0,
        zero_initialize_workgroup_memory: false,
    }
}

impl LightingPipeline {
    /// The shared parts: two filterable float textures and one filtering sampler.
    pub fn new() -> (r: LightingPipeline)
        ensures
            r.layout == lighting_layout(),
    {
        LightingPipeline {
            layout: BindGroupLayout {
                scene_texture: BindingKind::FilterableTexture2d,
                auxiliary_texture: BindingKind::FilterableTexture2d,
                sampler: BindingKind::FilteringSampler,
            },
        }
    }

    /// The descriptor of the specialisation for `key`.
    pub fn specialize(&self, key: LightingPipelineKey) -> (r: RenderPipelineDescriptor)
        ensures
            r == descriptor_for(*self, key),
    {
        let format = if key.hdr {
            TextureFormat::Rgba16Float
        } else {
            TextureFormat::Rgba8UnormSrgb
        };
        RenderPipelineDescriptor {
            label: PipelineLabel::Lighting,
            layout: self.layout,
            vertex: VertexStage::Fullscreen,
            fragment: FragmentShader::LightingFragment,
            shader_defs: 0,
            format,
            blend: false,
            write_all_channels: true,
            primitive: PrimitiveTopology::TriangleList,
            depth_stencil: false,
            sample_count: 1,
            push_constant_ranges: 0,
            zero_initialize_workgroup_memory: false,
        }
    }
}

/// Specialisations for any two keys differ in their output format alone: the
/// same full-screen vertex stage, layout and fragment shader serve every key.
pub proof fn lemma_only_format_depends_on_key(
    p: LightingPipeline,
    k1: LightingPipelineKey,
    k2: LightingPipelineKey,
)
    ensures
        descriptor_for(p, k1).vertex == VertexStage::Fullscreen,
        descriptor_for(p, k1) == (RenderPipelineDescriptor {
            format: descriptor_for(p, k1).format,
            ..descriptor_for(p, k2)
        }),
{
}

/// The id a cache gives `key`, if it holds one.
pub open spec fn cached_id(entries: Seq<(LightingPipelineKey, usize)>, key: LightingPipelineKey) -> Option<usize>
    decreases entries.len(),
{
    if entries.len() == 0 {
        None
    } else if entries.last().0 == key {
        Some(entries.last().1)
    } else {
        cached_id(entries.drop_last(), key)
    }
}

/// `after` and `id` are what specialising `before` for `key` leaves and
/// returns: the cached id, with nothing built, when `key` was seen; else one
/// new build of `pipeline` for `key`, cached under the next id.
pub open spec fn specialized(
    before: SpecializedPipelines,
    after: SpecializedPipelines,
    pipeline: LightingPipeline,
    key: LightingPipelineKey,
    id: usize,
) -> bool {
    &&& after.wf()
    &&& id < after.built().len()
    &&& cached_id(after.ids(), key) == Some(id)
    &&& match cached_id(before.ids(), key) {
        Some(c) => id == c && after == before,
        None => {
            &&& id == before.built().len()
            &&& after.built() == before.built().push(descriptor_for(pipeline, key))
            &&& after.ids() == before.ids().push((key, id))
        },
    }
}

/// Specialising twice with the same key gives the same id, and the second
/// time builds nothing and changes nothing.
pub proof fn lemma_specialize_twice_reuses(
    c0: SpecializedPipelines,
    c1: SpecializedPipelines,
    c2: SpecializedPipelines,
    pipeline: LightingPipeline,
    key: LightingPipelineKey,
    id1: usize,
    id2: usize,
)
    requires
        specialized(c0, c1, pipeline, key, id1),
        specialized(c1, c2, pipeline, key, id2),
    ensures
        id2 == id1,
        c2 == c1,
        c2.built().len() == c1.built().len(),
{
}

/// Specialisations built so far, each under the id of its place in `builds`.
pub struct SpecializedPipelines {
    entries: Vec<(LightingPipelineKey, usize)>,
    builds: Vec<RenderPipelineDescriptor>,
}

impl SpecializedPipelines {
    /// The cached keys with their ids, in the order they were first specialised.
    pub closed spec fn ids(&self) -> Seq<(LightingPipelineKey, usize)> {
        self.entries@
    }

    /// The builds made, in order.
    pub closed spec fn built(&self) -> Seq<RenderPipelineDescriptor> {
        self.builds@
    }

    /// Each entry's id is its place, so every id names a build, and no key
    /// has two entries, so no key has two builds.
    pub closed spec fn wf(&self) -> bool {
        &&& self.entries@.len() == self.builds@.len()
        &&& forall|i: int|
            0 <= i < self.entries@.len() ==> (#[trigger] self.entries@[i]).1 == i
        &&& forall|i: int, j: int|
            0 <= i < j < self.entries@.len() ==> (#[trigger] self.entries@[i]).0
                != (#[trigger] self.entries@[j]).0
    }

    pub fn new() -> (r: SpecializedPipelines)
        ensures
            r.wf(),
            r.built().len() == 0,
            forall|k: LightingPipelineKey| cached_id(r.ids(), k) is None,
    {
        SpecializedPipelines { entries: Vec::new(), builds: Vec::new() }
    }

    /// Forgets every build, as when the device that held them is lost.
    pub fn invalidate(&mut self)
        ensures
            final(self).wf(),
            final(self).built().len() == 0,
            forall|k: LightingPipelineKey| cached_id(final(self).ids(), k) is None,
    {
        self.entries.clear();
        self.builds.clear();
    }

    /// The id under which `key` is cached, if it is.
    pub fn get(&self, key: LightingPipelineKey) -> (r: Option<usize>)
        ensures
            r == cached_id(self.ids(), key),
    {
        let mut i: usize = self.entries.len();
        assert(self.entries@.subrange(0, i as int) =~= self.entries@);
        while i > 0
            invariant
                i <= self.entries@.len(),
                cached_id(self.entries@, key) == cached_id(self.entries@.subrange(0, i as int), key),
            decreases i,
        {
            proof {
                assert(self.entries@.subrange(0, i as int).drop_last() =~= self.entries@.subrange(0, i - 1));
            }
            if self.entries[i - 1].0 == key {
                return Some(self.entries[i - 1].1);
            }
            i = i - 1;
        }
        None
    }

    /// The build with id `id`.
    pub fn build(&self, id: usize) -> (r: RenderPipelineDescriptor)
        requires
            id < self.built().len(),
        ensures
            r == self.built()[id as int],
    {
        self.builds[id]
    }

    /// The id of the specialisation of `pipeline` for `key`: the cached one
    /// when `key` was seen before, with nothing built; else a new build, cached
    /// under the next id.
    pub fn specialize(&mut self, pipeline: &LightingPipeline, key: LightingPipelineKey) -> (id: usize)
        requires
            old(self).wf(),
            old(self).built().len() < usize::MAX,
        ensures
            specialized(*old(self), *final(self), *pipeline, key, id),
    {
        match self.get(key) {
            Some(id) => {
                proof {
                    lemma_cached_id_in_range(self.entries@, key);
                }
                id
            },
            None => {
                let id = self.builds.len();
                let d = pipeline.specialize(key);
                self.builds.push(d);
                self.entries.push((key, id));
                proof {
                    lemma_uncached_absent(old(self).entries@, key);
                    assert(self.entries@.drop_last() =~= old(self).entries@);
                }
                id
            },
        }
    }
}

proof fn lemma_uncached_absent(entries: Seq<(LightingPipelineKey, usize)>, key: LightingPipelineKey)
    requires
        cached_id(entries, key) is None,
    ensures
        forall|i: int| 0 <= i < entries.len() ==> (#[trigger] entries[i]).0 != key,
    decreases entries.len(),
{
    if entries.len() > 0 {
        let p = entries.drop_last();
        lemma_uncached_absent(p, key);
        assert forall|i: int| 0 <= i < entries.len() implies (#[trigger] entries[i]).0 != key by {
            if i < p.len() {
                assert(entries[i] == p[i]);
            }
        }
    }
}

proof fn lemma_cached_id_in_range(entries: Seq<(LightingPipelineKey, usize)>, key: LightingPipelineKey)
    requires
        forall|i: int| 0 <= i < entries.len() ==> (#[trigger] entries[i]).1 == i,
    ensures
        cached_id(entries, key) matches Some(id) ==> id < entries.len(),
    decreases entries.len(),
{
    if entries.len() > 0 {
        let p = entries.drop_last();
        assert forall|i: int| 0 <= i < p.len() implies (#[trigger] p[i]).1 == i by {
            assert(p[i] == entries[i]);
        }
        lemma_cached_id_in_range(p, key);
        assert(entries.last() == entries[entries.len() - 1]);
    }
}

/// Whether the lighting pass can run this frame.
#[derive(Clone, Copy, Debug, PartialEq, Eq, Structural)]
pub enum PassState {
    /// No pipeline yet: the frame is drawn unlit.
    Pending,
    /// The pass runs with the cached pipeline of this id.
    Ready { pipeline: usize },
    /// A GPU failure disabled the pass until its pipeline is rebuilt.
    Disabled,
}

/// What the GPU side reports about the lighting pipeline.
#[derive(Clone, Copy, Debug, PartialEq, Eq, Structural)]
pub enum PassEvent {
    /// The pipeline of this id was built.
    Built { pipeline: usize },
    /// Building the pipeline or its shader failed.
    BuildFailed,
    /// The device was lost.
    DeviceLost,
}

pub open spec fn pass_step(s: PassState, e: PassEvent) -> PassState {
    match e {
        PassEvent::Built { pipeline } => PassState::Ready { pipeline },
        PassEvent::BuildFailed => PassState::Disabled,
        PassEvent::DeviceLost => PassState::Disabled,
    }
}

/// The state after the events, in order.
pub open spec fn pass_after(s: PassState, events: Seq<PassEvent>) -> PassState
    decreases events.len(),
{
    if events.len() == 0 {
        s
    } else {
        pass_step(pass_after(s, events.drop_last()), events.last())
    }
}

pub open spec fn frame_pipeline(s: PassState) -> Option<usize> {
    match s {
        PassState::Ready { pipeline } => Some(pipeline),
        _ => None,
    }
}

/// The state that follows `s` on event `e`: ready with a newly built
/// pipeline, disabled on any failure.
pub fn next_pass_state(s: PassState, e: PassEvent) -> (r: PassState)
    ensures
        r == pass_step(s, e),
{
    match e {
        PassEvent::Built { pipeline } => PassState::Ready { pipeline },
        PassEvent::BuildFailed => PassState::Disabled,
        PassEvent::DeviceLost => PassState::Disabled,
    }
}

/// The pipeline the pass runs with this frame; `None` means the frame is
/// drawn without lighting.
pub fn pipeline_for_frame(s: PassState) -> (r: Option<usize>)
    ensures
        r == frame_pipeline(s),
{
    match s {
        PassState::Ready { pipeline } => Some(pipeline),
        _ => None,
    }
}

/// After a failure the pass stays off, whatever follows, until a pipeline is
/// built again.
pub proof fn lemma_disabled_until_rebuilt(s: PassState, events: Seq<PassEvent>)
    requires
        events.len() > 0,
        events[0] == PassEvent::BuildFailed || events[0] == PassEvent::DeviceLost,
        forall|i: int| 0 <= i < events.len() ==> !(#[trigger] events[i] is Built),
    ensures
        pass_after(s, events) == PassState::Disabled,
        frame_pipeline(pass_after(s, events)) is None,
    decreases events.len(),
{
    if events.len() > 1 {
        let p = events.drop_last();
        assert(p[0] == events[0]);
        assert forall|i: int| 0 <= i < p.len() implies !(#[trigger] p[i] is Built) by {
            assert(p[i] == events[i]);
        }
        lemma_disabled_until_rebuilt(s, p);
        assert(!(events[events.len() - 1] is Built));
    } else {
        assert(events.drop_last().len() == 0);
    }
}

} // verus!
