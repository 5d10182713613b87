//! The OpenGL ES 1.1 state that the ES 2 translator keeps on its own side
//! of the driver: the capabilities its shaders emulate, the client arrays
//! it feeds, and the shadow copies of buffer contents that it reads vertex
//! data from. A capability it does not emulate is left to the driver.
use std::collections::HashMap;
use vstd::prelude::*;

verus! {

/// The texture units the translator emulates.
pub const MAX_TEXTURE_UNITS: usize = 4;

/// `GL_TEXTURE0`.
pub const TEXTURE0: u32 = 0x84C0;

/// `GL_COLOR_LOGIC_OP`.
pub const COLOR_LOGIC_OP: u32 = 0x0BF2;

/// `GL_TEXTURE_2D`.
pub const TEXTURE_2D: u32 = 0x0DE1;

/// `GL_ALPHA_TEST`.
pub const ALPHA_TEST: u32 = 0x0BC0;

/// `GL_FOG`.
pub const FOG: u32 = 0x0B60;

/// `GL_LIGHTING`.
pub const LIGHTING: u32 = 0x0B50;

/// `GL_LIGHT0`.
pub const LIGHT0: u32 = 0x4000;

/// `GL_COLOR_MATERIAL`.
pub const COLOR_MATERIAL: u32 = 0x0B57;

/// `GL_NORMALIZE`.
pub const NORMALIZE: u32 = 0x0BA1;

/// `GL_MATRIX_PALETTE_OES`.
pub const MATRIX_PALETTE_OES: u32 = 0x8840;

/// `GL_CLIP_PLANE0`; the six clip planes follow it.
pub const CLIP_PLANE0: u32 = 0x3000;

/// `GL_CLIP_PLANE5`.
pub const CLIP_PLANE5: u32 = 0x3005;

/// `GL_VERTEX_ARRAY`.
pub const VERTEX_ARRAY: u32 = 0x8074;

/// `GL_NORMAL_ARRAY`.
pub const NORMAL_ARRAY: u32 = 0x8075;

/// `GL_COLOR_ARRAY`.
pub const COLOR_ARRAY: u32 = 0x8076;

/// `GL_TEXTURE_COORD_ARRAY`.
pub const TEXTURE_COORD_ARRAY: u32 = 0x8078;

/// `GL_MATRIX_INDEX_ARRAY_OES`.
pub const MATRIX_INDEX_ARRAY_OES: u32 = 0x8844;

/// `GL_WEIGHT_ARRAY_OES`.
pub const WEIGHT_ARRAY_OES: u32 = 0x86AD;

/// `GL_POINT_SIZE_ARRAY_OES`.
pub const POINT_SIZE_ARRAY_OES: u32 = 0x8B9C;

/// `GL_ARRAY_BUFFER`.
pub const ARRAY_BUFFER: u32 = 0x8892;

/// `GL_ELEMENT_ARRAY_BUFFER`.
pub const ELEMENT_ARRAY_BUFFER: u32 = 0x8893;

/// The capabilities and client arrays the translator emulates, and the
/// texture units selected.
pub struct Capabilities {
    pub logic_op: bool,
    pub alpha_test: bool,
    pub fog: bool,
    pub lighting: bool,
    pub light0: bool,
    pub color_material: bool,
    pub normalize: bool,
    pub matrix_palette: bool,
    /// `GL_TEXTURE_2D` of each texture unit.
    pub texture_2d: Vec<bool>,
    /// Each of the six clip planes.
    pub clip_planes: Vec<bool>,
    /// The unit `glActiveTexture` selected.
    pub active_texture: usize,
    /// The unit `glClientActiveTexture` selected.
    pub client_active_texture: usize,
    /// The vertex, color and normal arrays.
    pub arrays: Vec<bool>,
    /// The texture coordinate array of each texture unit.
    pub texcoord_arrays: Vec<bool>,
    pub matrix_index_array: bool,
    pub weight_array: bool,
    pub point_size_array: bool,
}

/// The capabilities as the contracts speak of them.
pub ghost struct CapabilitiesView {
    pub logic_op: bool,
    pub alpha_test: bool,
    pub fog: bool,
    pub lighting: bool,
    pub light0: bool,
    pub color_material: bool,
    pub normalize: bool,
    pub matrix_palette: bool,
    pub texture_2d: Seq<bool>,
    pub clip_planes: Seq<bool>,
    pub active_texture: int,
    pub client_active_texture: int,
    pub arrays: Seq<bool>,
    pub texcoord_arrays: Seq<bool>,
    pub matrix_index_array: bool,
    pub weight_array: bool,
    pub point_size_array: bool,
}

impl View for Capabilities {
    type V = CapabilitiesView;

    open spec fn view(&self) -> CapabilitiesView {
        CapabilitiesView {
            logic_op: self.logic_op,
            alpha_test: self.alpha_test,
            fog: self.fog,
            lighting: self.lighting,
            light0: self.light0,
            color_material: self.color_material,
            normalize: self.normalize,
            matrix_palette: self.matrix_palette,
            texture_2d: self.texture_2d@,
            clip_planes: self.clip_planes@,
            active_texture: self.active_texture as int,
            client_active_texture: self.client_active_texture as int,
            arrays: self.arrays@,
            texcoord_arrays: self.texcoord_arrays@,
            matrix_index_array: self.matrix_index_array,
            weight_array: self.weight_array,
            point_size_array: self.point_size_array,
        }
    }
}

impl CapabilitiesView {
    /// One flag per texture unit, per clip plane and per fixed array, and
    /// the selected units among the texture units.
    pub open spec fn wf(self) -> bool {
        &&& self.texture_2d.len() == MAX_TEXTURE_UNITS
        &&& self.clip_planes.len() == 6
        &&& self.arrays.len() == 3
        &&& self.texcoord_arrays.len() == MAX_TEXTURE_UNITS
        &&& 0 <= self.active_texture < MAX_TEXTURE_UNITS
        &&& 0 <= self.client_active_texture < MAX_TEXTURE_UNITS
    }
}

/// Whether the translator emulates capability `cap` itself.
pub open spec fn emulated(cap: u32) -> bool {
    cap == COLOR_LOGIC_OP || cap == TEXTURE_2D || cap == ALPHA_TEST || cap == FOG || cap == LIGHTING
        || cap == LIGHT0 || cap == COLOR_MATERIAL || cap == NORMALIZE || cap == MATRIX_PALETTE_OES
        || (CLIP_PLANE0 <= cap <= CLIP_PLANE5)
}

/// Whether capability `cap` is on, where the translator emulates it;
/// `GL_TEXTURE_2D` is that of the active texture unit.
pub open spec fn capability(s: CapabilitiesView, cap: u32) -> Option<bool> {
    if cap == COLOR_LOGIC_OP {
        Some(s.logic_op)
    } else if cap == TEXTURE_2D {
        Some(s.texture_2d[s.active_texture])
    } else if cap == ALPHA_TEST {
        Some(s.alpha_test)
    } else if cap == FOG {
        Some(s.fog)
    } else if cap == LIGHTING {
        Some(s.lighting)
    } else if cap == LIGHT0 {
        Some(s.light0)
    } else if cap == COLOR_MATERIAL {
        Some(s.color_material)
    } else if cap == NORMALIZE {
        Some(s.normalize)
    } else if cap == MATRIX_PALETTE_OES {
        Some(s.matrix_palette)
    } else if CLIP_PLANE0 <= cap <= CLIP_PLANE5 {
        Some(s.clip_planes[cap - CLIP_PLANE0])
    } else {
        None
    }
}

/// The capabilities with `cap` turned `on` or off, where the translator
/// emulates it; unchanged otherwise.
pub open spec fn set_capability(s: CapabilitiesView, cap: u32, on: bool) -> CapabilitiesView {
    CapabilitiesView {
        logic_op: if cap == COLOR_LOGIC_OP { on } else { s.logic_op },
        texture_2d: if cap == TEXTURE_2D {
            s.texture_2d.update(s.active_texture, on)
        } else {
            s.texture_2d
        },
        alpha_test: if cap == ALPHA_TEST { on } else { s.alpha_test },
        fog: if cap == FOG { on } else { s.fog },
        lighting: if cap == LIGHTING { on } else { s.lighting },
        light0: if cap == LIGHT0 { on } else { s.light0 },
        color_material: if cap == COLOR_MATERIAL { on } else { s.color_material },
        normalize: if cap == NORMALIZE { on } else { s.normalize },
        matrix_palette: if cap == MATRIX_PALETTE_OES { on } else { s.matrix_palette },
        clip_planes: if CLIP_PLANE0 <= cap <= CLIP_PLANE5 {
            s.clip_planes.update(cap - CLIP_PLANE0, on)
        } else {
            s.clip_planes
        },
        ..s
    }
}

/// The capabilities with client array `array` turned `on` or off; the
/// texture coordinate array is that of the client-active unit, and an
/// array the translator does not feed leaves everything unchanged.
pub open spec fn set_client_state(s: CapabilitiesView, array: u32, on: bool) -> CapabilitiesView {
    if array == VERTEX_ARRAY {
        CapabilitiesView { arrays: s.arrays.update(0, on), ..s }
    } else if array == COLOR_ARRAY {
        CapabilitiesView { arrays: s.arrays.update(1, on), ..s }
    } else if array == NORMAL_ARRAY {
        CapabilitiesView { arrays: s.arrays.update(2, on), ..s }
    } else if array == TEXTURE_COORD_ARRAY {
        CapabilitiesView { texcoord_arrays: s.texcoord_arrays.update(s.client_active_texture, on), ..s }
    } else if array == MATRIX_INDEX_ARRAY_OES {
        CapabilitiesView { matrix_index_array: on, ..s }
    } else if array == WEIGHT_ARRAY_OES {
        CapabilitiesView { weight_array: on, ..s }
    } else if array == POINT_SIZE_ARRAY_OES {
        CapabilitiesView { point_size_array: on, ..s }
    } else {
        s
    }
}

/// The unit a `glActiveTexture` of `texture` selects: its distance above
/// `GL_TEXTURE0`, 0 below it, and at most the last unit.
pub open spec fn unit_of(texture: u32) -> int {
    let d = if texture < TEXTURE0 {
        0
    } else {
        texture - TEXTURE0
    };
    if d > MAX_TEXTURE_UNITS - 1 {
        MAX_TEXTURE_UNITS - 1
    } else {
        d
    }
}

impl Capabilities {
    /// The initial state: everything off, unit 0 selected.
    pub fn new() -> (r: Self)
        ensures
            r@.wf(),
            forall|cap: u32| emulated(cap) ==> capability(r@, cap) == Some(false),
            r@.active_texture == 0,
            r@.client_active_texture == 0,
            r@.arrays == seq![false, false, false],
            r@.texcoord_arrays == seq![false, false, false, false],
            !r@.matrix_index_array && !r@.weight_array && !r@.point_size_array,
    {
        let r = Capabilities {
            logic_op: false,
            alpha_test: false,
            fog: false,
            lighting: false,
            light0: false,
            color_material: false,
            normalize: false,
            matrix_palette: false,
            texture_2d: vec![false, false, false, false],
            clip_planes: vec![false, false, false, false, false, false],
            active_texture: 0,
            client_active_texture: 0,
            arrays: vec![false, false, false],
            texcoord_arrays: vec![false, false, false, false],
            matrix_index_array: false,
            weight_array: false,
            point_size_array: false,
        };
        assert forall|cap: u32| emulated(cap) implies capability(r@, cap) == Some(false) by {
            if CLIP_PLANE0 <= cap <= CLIP_PLANE5 {
                assert(r@.clip_planes[cap - CLIP_PLANE0] == false);
            }
        }
        r
    }

    /// `glEnable`/`glDisable` of `cap`: turns an emulated capability `on`
    /// or off and says whether it did; one it does not emulate is left for
    /// the driver.
    pub fn set_enabled(&mut self, cap: u32, on: bool) -> (handled: bool)
        requires
            old(self)@.wf(),
        ensures
            final(self)@ == set_capability(old(self)@, cap, on),
            handled == emulated(cap),
    {
        if cap == TEXTURE_2D {
            let unit = self.active_texture;
            self.texture_2d.set(unit, on);
            true
        } else if CLIP_PLANE0 <= cap && cap <= CLIP_PLANE5 {
            self.clip_planes.set((cap - CLIP_PLANE0) as usize, on);
            true
        } else {
            self.set_flag(cap, on)
        }
    }

    /// Sets one of the capabilities kept as a single flag.
    fn set_flag(&mut self, cap: u32, on: bool) -> (handled: bool)
        requires
            cap != TEXTURE_2D,
            !(CLIP_PLANE0 <= cap <= CLIP_PLANE5),
        ensures
            final(self)@ == set_capability(old(self)@, cap, on),
            handled == emulated(cap),
    {
        if cap == COLOR_LOGIC_OP {
            self.logic_op = on;
        } else if cap == ALPHA_TEST {
            self.alpha_test = on;
        } else if cap == FOG {
            self.fog = on;
        } else if cap == LIGHTING {
            self.lighting = on;
        } else if cap == LIGHT0 {
            self.light0 = on;
        } else if cap == COLOR_MATERIAL {
            self.color_material = on;
        } else if cap == NORMALIZE {
            self.normalize = on;
        } else if cap == MATRIX_PALETTE_OES {
            self.matrix_palette = on;
        } else {
            return false;
        }
        true
    }

    /// `glIsEnabled` of `cap`, where the translator emulates it.
    pub fn is_enabled(&self, cap: u32) -> (r: Option<bool>)
        requires
            self@.wf(),
        ensures
            r == capability(self@, cap),
    {
        if cap == COLOR_LOGIC_OP {
            Some(self.logic_op)
        } else if cap == TEXTURE_2D {
            Some(self.texture_2d[self.active_texture])
        } else if cap == ALPHA_TEST {
            Some(self.alpha_test)
        } else if cap == FOG {
            Some(self.fog)
        } else if cap == LIGHTING {
            Some(self.lighting)
        } else if cap == LIGHT0 {
            Some(self.light0)
        } else if cap == COLOR_MATERIAL {
            Some(self.color_material)
        } else if cap == NORMALIZE {
            Some(self.normalize)
        } else if cap == MATRIX_PALETTE_OES {
            Some(self.matrix_palette)
        } else if CLIP_PLANE0 <= cap && cap <= CLIP_PLANE5 {
            Some(self.clip_planes[(cap - CLIP_PLANE0) as usize])
        } else {
            None
        }
    }

    /// `glEnableClientState`/`glDisableClientState` of `array`.
    pub fn set_client_state(&mut self, array: u32, on: bool)
        requires
            old(self)@.wf(),
        ensures
            final(self)@ == set_client_state(old(self)@, array, on),
    {
        if array == VERTEX_ARRAY {
            self.arrays.set(0, on);
        } else if array == COLOR_ARRAY {
            self.arrays.set(1, on);
        } else if array == NORMAL_ARRAY {
            self.arrays.set(2, on);
        } else if array == TEXTURE_COORD_ARRAY {
            let unit = self.client_active_texture;
            self.texcoord_arrays.set(unit, on);
        } else if array == MATRIX_INDEX_ARRAY_OES {
            self.matrix_index_array = on;
        } else if array == WEIGHT_ARRAY_OES {
            self.weight_array = on;
        } else if array == POINT_SIZE_ARRAY_OES {
            self.point_size_array = on;
        }
    }

    /// `glActiveTexture`: selects the unit `texture` names (see `unit_of`)
    /// and gives it, to be selected in the driver too.
    pub fn active_texture(&mut self, texture: u32) -> (unit: usize)
        requires
            old(self)@.wf(),
        ensures
            unit == unit_of(texture),
            final(self)@ == (CapabilitiesView { active_texture: unit as int, ..old(self)@ }),
    {
        let d = texture.saturating_sub(TEXTURE0);
        let unit: usize = if d > (MAX_TEXTURE_UNITS - 1) as u32 {
            MAX_TEXTURE_UNITS - 1
        } else {
            d as usize
        };
        self.active_texture = unit;
        unit
    }

    /// `glClientActiveTexture`: selects the unit `texture` names for the
    /// texture coordinate array.
    pub fn client_active_texture(&mut self, texture: u32)
        requires
            old(self)@.wf(),
            texture >= TEXTURE0,
        ensures
            final(self)@ == (CapabilitiesView { client_active_texture: unit_of(texture), ..old(self)@ }),
    {
        let d = texture - TEXTURE0;
        self.client_active_texture = if d > (MAX_TEXTURE_UNITS - 1) as u32 {
            MAX_TEXTURE_UNITS - 1
        } else {
            d as usize
        };
    }
}

/// Turning an emulated capability on or off reads back: `glIsEnabled`
/// then answers what was set.
pub proof fn law_capability_reads_back(s: CapabilitiesView, cap: u32, on: bool)
    requires
        s.wf(),
        emulated(cap),
    ensures
        capability(set_capability(s, cap, on), cap) == Some(on),
        set_capability(s, cap, on).wf(),
{
}

/// Setting one capability leaves every other as it was, and one the
/// translator does not emulate changes nothing.
pub proof fn law_capabilities_are_independent(s: CapabilitiesView, cap: u32, other: u32, on: bool)
    requires
        s.wf(),
        other != cap,
    ensures
        capability(set_capability(s, cap, on), other) == capability(s, other),
        !emulated(cap) ==> set_capability(s, cap, on) == s,
{
}

/// The buffers the translator shadows: which buffer is bound to each
/// target, a copy of the contents of each array and element buffer, and
/// the buffer mapped with `glMapBufferOES`, if any.
pub struct BufferShadow {
    pub array_binding: u32,
    pub element_binding: u32,
    array_data: HashMap<u32, Vec<u8>>,
    element_data: HashMap<u32, Vec<u8>>,
    pub mapped: Option<(u32, u32)>,
}

/// The shadowed buffers as the contracts speak of them.
pub ghost struct BufferShadowView {
    pub array_binding: u32,
    pub element_binding: u32,
    pub array_data: Map<u32, Seq<u8>>,
    pub element_data: Map<u32, Seq<u8>>,
    pub mapped: Option<(u32, u32)>,
}

/// The contents of a map of buffers.
pub open spec fn contents(m: Map<u32, Vec<u8>>) -> Map<u32, Seq<u8>> {
    Map::new(|k: u32| m.dom().contains(k), |k: u32| m[k]@)
}

impl View for BufferShadow {
    type V = BufferShadowView;

    closed spec fn view(&self) -> BufferShadowView {
        BufferShadowView {
            array_binding: self.array_binding,
            element_binding: self.element_binding,
            array_data: contents(self.array_data@),
            element_data: contents(self.element_data@),
            mapped: self.mapped,
        }
    }
}

/// The buffer bound to `target`: 0 for a target that is neither the array
/// nor the element target.
pub open spec fn binding_of(s: BufferShadowView, target: u32) -> u32 {
    if target == ARRAY_BUFFER {
        s.array_binding
    } else if target == ELEMENT_ARRAY_BUFFER {
        s.element_binding
    } else {
        0
    }
}

/// The shadow copies kept for `target`: those of array buffers for the
/// array target, of element buffers for any other.
pub open spec fn store_of(s: BufferShadowView, target: u32) -> Map<u32, Seq<u8>> {
    if target == ARRAY_BUFFER {
        s.array_data
    } else {
        s.element_data
    }
}

/// `s` with the copies kept for `target` replaced by `m`.
pub open spec fn with_store(s: BufferShadowView, target: u32, m: Map<u32, Seq<u8>>) -> BufferShadowView {
    if target == ARRAY_BUFFER {
        BufferShadowView { array_data: m, ..s }
    } else {
        BufferShadowView { element_data: m, ..s }
    }
}

/// `bytes` cut or padded with zeros to `n` bytes.
pub open spec fn resized(bytes: Seq<u8>, n: int) -> Seq<u8> {
    if n <= bytes.len() {
        bytes.subrange(0, n)
    } else {
        bytes + Seq::new((n - bytes.len()) as nat, |i: int| 0u8)
    }
}

/// The copy of the buffer `b` of `store`, or no bytes where it has none.
pub open spec fn copy_of(store: Map<u32, Seq<u8>>, b: u32) -> Seq<u8> {
    if store.dom().contains(b) {
        store[b]
    } else {
        seq![]
    }
}

/// What `glBufferData` of `size` bytes (`data`, or none) for `target`
/// leaves: the bound buffer's copy becomes the data, or, without data, its
/// old copy cut or padded with zeros to `size`; nothing changes where no
/// buffer is bound or `size` is negative.
pub open spec fn buffer_data_spec(s: BufferShadowView, target: u32, size: int, data: Option<Seq<u8>>) -> BufferShadowView {
    let b = binding_of(s, target);
    if b != 0 && size >= 0 {
        let store = store_of(s, target);
        let bytes = match data {
            Some(d) => d,
            None => resized(copy_of(store, b), size),
        };
        with_store(s, target, store.insert(b, bytes))
    } else {
        s
    }
}

/// What `glBufferSubData` of `data` at `offset` for `target` leaves: the
/// bound buffer's copy, padded with zeros to reach past the data where it
/// is shorter, holds the data there; nothing changes where no buffer is
/// bound, an argument is negative or there is no data.
pub open spec fn buffer_sub_data_spec(
    s: BufferShadowView,
    target: u32,
    offset: int,
    size: int,
    data: Option<Seq<u8>>,
) -> BufferShadowView {
    let b = binding_of(s, target);
    if b != 0 && offset >= 0 && size >= 0 && data is Some {
        let d = data->Some_0;
        let store = store_of(s, target);
        let old = copy_of(store, b);
        let padded = if offset + size > old.len() {
            resized(old, offset + size)
        } else {
            old
        };
        let bytes = padded.subrange(0, offset) + d + padded.subrange(offset + size, padded.len() as int);
        with_store(s, target, store.insert(b, bytes))
    } else {
        s
    }
}

impl BufferShadow {
    /// Nothing bound, shadowed or mapped.
    pub fn new() -> (r: Self)
        ensures
            r@ == (BufferShadowView {
                array_binding: 0,
                element_binding: 0,
                array_data: Map::empty(),
                element_data: Map::empty(),
                mapped: None,
            }),
    {
        let r = BufferShadow {
            array_binding: 0,
            element_binding: 0,
            array_data: HashMap::new(),
            element_data: HashMap::new(),
            mapped: None,
        };
        assert(contents(r.array_data@) =~= Map::<u32, Seq<u8>>::empty());
        assert(contents(r.element_data@) =~= Map::<u32, Seq<u8>>::empty());
        r
    }

    /// The shadow copy of buffer `b` for `target`, if there is one.
    pub fn shadow_copy(&self, target: u32, b: u32) -> (r: Option<&Vec<u8>>)
        ensures
            match r {
                Some(v) => store_of(self@, target).dom().contains(b) && v@ == store_of(self@, target)[b],
                None => !store_of(self@, target).dom().contains(b),
            },
    {
        if target == ARRAY_BUFFER {
            self.array_data.get(&b)
        } else {
            self.element_data.get(&b)
        }
    }

    /// `glBindBuffer`: records the buffer bound to the array or element
    /// target.
    pub fn bind_buffer(&mut self, target: u32, buffer: u32)
        ensures
            final(self)@ == (if target == ARRAY_BUFFER {
                BufferShadowView { array_binding: buffer, ..old(self)@ }
            } else if target == ELEMENT_ARRAY_BUFFER {
                BufferShadowView { element_binding: buffer, ..old(self)@ }
            } else {
                old(self)@
            }),
    {
        if target == ARRAY_BUFFER {
            self.array_binding = buffer;
        } else if target == ELEMENT_ARRAY_BUFFER {
            self.element_binding = buffer;
        }
    }

    /// `glDeleteBuffers`: forgets the copies of `buffers`.
    pub fn delete_buffers(&mut self, buffers: &[u32])
        ensures
            final(self)@ == (BufferShadowView {
                array_data: old(self)@.array_data.remove_keys(buffers@.to_set()),
                element_data: old(self)@.element_data.remove_keys(buffers@.to_set()),
                ..old(self)@
            }),
    {
        let ghost start = self@;
        let mut i: usize = 0;
        assert(buffers@.subrange(0, 0).to_set() =~= Set::<u32>::empty());
        assert(start.array_data.remove_keys(Set::<u32>::empty()) =~= start.array_data);
        assert(start.element_data.remove_keys(Set::<u32>::empty()) =~= start.element_data);
        while i < buffers.len()
            invariant
                i <= buffers@.len(),
                start == old(self)@,
                self@ == (BufferShadowView {
                    array_data: start.array_data.remove_keys(buffers@.subrange(0, i as int).to_set()),
                    element_data: start.element_data.remove_keys(buffers@.subrange(0, i as int).to_set()),
                    ..start
                }),
            decreases buffers.len() - i,
        {
            let b = buffers[i];
            let ghost before = self@;
            let ghost array_before = self.array_data@;
            let ghost element_before = self.element_data@;
            self.array_data.remove(&b);
            self.element_data.remove(&b);
            proof {
                assert(self.array_data@ =~= array_before.remove(b));
                assert(self.element_data@ =~= element_before.remove(b));
                assert(contents(array_before.remove(b)) =~= contents(array_before).remove(b));
                assert(contents(element_before.remove(b)) =~= contents(element_before).remove(b));
                let next = buffers@.subrange(0, i + 1);
                assert(next.to_set() =~= buffers@.subrange(0, i as int).to_set().insert(b)) by {
                    assert(next =~= buffers@.subrange(0, i as int) + seq![b]);
                    Seq::lemma_to_set_insert_commutes(buffers@.subrange(0, i as int), b);
                }
                assert(contents(self.array_data@) =~= start.array_data.remove_keys(next.to_set()));
                assert(contents(self.element_data@) =~= start.element_data.remove_keys(next.to_set()));
            }
            i = i + 1;
        }
        assert(buffers@.subrange(0, i as int) =~= buffers@);
    }
}

/// What `glMapBufferOES` of `target` leaves and answers: the buffer bound
/// there is mapped where it has a shadow copy; nothing is mapped, and the
/// answer is no, where no buffer is bound or it has no copy.
pub open spec fn map_buffer_spec(s: BufferShadowView, target: u32) -> (BufferShadowView, bool) {
    let b = binding_of(s, target);
    if b != 0 && store_of(s, target).dom().contains(b) {
        (BufferShadowView { mapped: Some((target, b)), ..s }, true)
    } else {
        (s, false)
    }
}

/// What `glUnmapBufferOES` of `target` leaves and answers: the mapping
/// ends where it was made for `target`; otherwise nothing changes and the
/// answer is no.
pub open spec fn unmap_buffer_spec(s: BufferShadowView, target: u32) -> (BufferShadowView, bool) {
    match s.mapped {
        Some((t, _)) => if t == target {
            (BufferShadowView { mapped: None, ..s }, true)
        } else {
            (s, false)
        },
        None => (s, false),
    }
}

impl BufferShadow {
    /// Takes the shadow copy of buffer `b` for `target` out (no bytes where
    /// there is none).
    fn take_copy(&mut self, target: u32, b: u32) -> (r: Vec<u8>)
        ensures
            r@ == copy_of(store_of(old(self)@, target), b),
            final(self)@ == with_store(old(self)@, target, store_of(old(self)@, target).remove(b)),
    {
        let ghost s = self@;
        let ghost before = if target == ARRAY_BUFFER {
            self.array_data@
        } else {
            self.element_data@
        };
        let taken = if target == ARRAY_BUFFER {
            self.array_data.remove(&b)
        } else {
            self.element_data.remove(&b)
        };
        proof {
            let after = if target == ARRAY_BUFFER {
                self.array_data@
            } else {
                self.element_data@
            };
            assert(after =~= before.remove(b));
            assert(contents(before.remove(b)) =~= contents(before).remove(b));
            assert(self@ =~= with_store(s, target, store_of(s, target).remove(b)));
        }
        match taken {
            Some(v) => v,
            None => Vec::new(),
        }
    }

    /// Keeps `bytes` as the shadow copy of buffer `b` for `target`.
    fn put_copy(&mut self, target: u32, b: u32, bytes: Vec<u8>)
        ensures
            final(self)@ == with_store(old(self)@, target, store_of(old(self)@, target).insert(b, bytes@)),
    {
        let ghost s = self@;
        let ghost view = bytes@;
        let ghost before = if target == ARRAY_BUFFER {
            self.array_data@
        } else {
            self.element_data@
        };
        if target == ARRAY_BUFFER {
            self.array_data.insert(b, bytes);
        } else {
            self.element_data.insert(b, bytes);
        }
        proof {
            let after = if target == ARRAY_BUFFER {
                self.array_data@
            } else {
                self.element_data@
            };
            assert(contents(after) =~= contents(before).insert(b, view));
            assert(self@ =~= with_store(s, target, store_of(s, target).insert(b, view)));
        }
    }

    /// The buffer bound to `target`.
    fn binding(&self, target: u32) -> (r: u32)
        ensures
            r == binding_of(self@, target),
    {
        if target == ARRAY_BUFFER {
            self.array_binding
        } else if target == ELEMENT_ARRAY_BUFFER {
            self.element_binding
        } else {
            0
        }
    }

    /// `glBufferData` of `size` bytes, `data` or none, for `target`: see
    /// `buffer_data_spec`.
    pub fn buffer_data(&mut self, target: u32, size: isize, data: Option<&[u8]>)
        requires
            size >= 0 ==> match data {
                Some(d) => d@.len() == size,
                None => true,
            },
        ensures
            final(self)@ == buffer_data_spec(
                old(self)@,
                target,
                size as int,
                match data {
                    Some(d) => Some(d@),
                    None => None,
                },
            ),
    {
        let b = self.binding(target);
        if b != 0 && size >= 0 {
            let ghost s = self@;
            let old_copy = self.take_copy(target, b);
            let bytes = match data {
                Some(d) => vstd::slice::slice_to_vec(d),
                None => resize_bytes(old_copy, size as usize),
            };
            self.put_copy(target, b, bytes);
            proof {
                assert(store_of(s, target).remove(b).insert(b, bytes@) =~= store_of(s, target).insert(b, bytes@));
                assert(with_store(with_store(s, target, store_of(s, target).remove(b)), target, store_of(s, target).remove(b).insert(b, bytes@))
                    =~= with_store(s, target, store_of(s, target).insert(b, bytes@)));
            }
        }
    }

    /// `glBufferSubData` of `data` (`size` bytes) at `offset` for `target`:
    /// see `buffer_sub_data_spec`.
    pub fn buffer_sub_data(&mut self, target: u32, offset: isize, size: isize, data: Option<&[u8]>)
        requires
            size >= 0 ==> match data {
                Some(d) => d@.len() == size,
                None => true,
            },
        ensures
            final(self)@ == buffer_sub_data_spec(
                old(self)@,
                target,
                offset as int,
                size as int,
                match data {
                    Some(d) => Some(d@),
                    None => None,
                },
            ),
    {
        let b = self.binding(target);
        if b != 0 && offset >= 0 && size >= 0 {
            match data {
                Some(d) => {
                    let ghost s = self@;
                    let copy = self.take_copy(target, b);
                    let start = offset as usize;
                    let end = start + size as usize;
                    let ghost old_copy = copy@;
                    let padded = if end > copy.len() {
                        resize_bytes(copy, end)
                    } else {
                        copy
                    };
                    let bytes = overwrite_bytes(padded, start, d);
                    self.put_copy(target, b, bytes);
                    proof {
                        assert(store_of(s, target).remove(b).insert(b, bytes@) =~= store_of(s, target).insert(
                            b,
                            bytes@,
                        ));
                    }
                },
                None => {},
            }
        }
    }

    /// `glMapBufferOES` of `target`: see `map_buffer_spec`.
    pub fn map_buffer(&mut self, target: u32) -> (r: bool)
        ensures
            (final(self)@, r) == map_buffer_spec(old(self)@, target),
    {
        let b = self.binding(target);
        if b == 0 {
            return false;
        }
        match self.shadow_copy(target, b) {
            Some(_) => {},
            None => {
                return false;
            },
        }
        self.mapped = Some((target, b));
        true
    }

    /// `glUnmapBufferOES` of `target`: see `unmap_buffer_spec`.
    pub fn unmap_buffer(&mut self, target: u32) -> (r: bool)
        ensures
            (final(self)@, r) == unmap_buffer_spec(old(self)@, target),
    {
        match self.mapped {
            Some((t, _)) => {
                if t == target {
                    self.mapped = None;
                    true
                } else {
                    false
                }
            },
            None => false,
        }
    }
}

/// `bytes` cut or padded with zeros to `n` bytes.
fn resize_bytes(bytes: Vec<u8>, n: usize) -> (r: Vec<u8>)
    ensures
        r@ == resized(bytes@, n as int),
{
    let mut v = bytes;
    let ghost start = v@;
    if n <= v.len() {
        v.truncate(n);
        return v;
    }
    while v.len() < n
        invariant
            start.len() <= v@.len() <= n,
            v@ == start + Seq::new((v@.len() - start.len()) as nat, |i: int| 0u8),
        decreases n - v.len(),
    {
        let ghost before = v@;
        v.push(0);
        assert(v@ =~= start + Seq::new((v@.len() - start.len()) as nat, |i: int| 0u8));
    }
    v
}

/// `bytes` with `data` written over it from `start` on.
fn overwrite_bytes(bytes: Vec<u8>, start: usize, data: &[u8]) -> (r: Vec<u8>)
    requires
        start + data@.len() <= bytes@.len(),
    ensures
        r@ == bytes@.subrange(0, start as int) + data@ + bytes@.subrange(start + data@.len(), bytes@.len() as int),
{
    let mut v = bytes;
    let ghost orig = v@;
    assert(orig.len() == v.len());
    let mut k: usize = 0;
    while k < data.len()
        invariant
            k <= data@.len(),
            start + data@.len() <= orig.len(),
            orig.len() <= usize::MAX,
            v@.len() == orig.len(),
            forall|i: int| 0 <= i < start ==> v@[i] == orig[i],
            forall|i: int| start <= i < start + k ==> v@[i] == data@[i - start],
            forall|i: int| start + k <= i < orig.len() ==> v@[i] == orig[i],
        decreases data.len() - k,
    {
        v.set(start + k, data[k]);
        k = k + 1;
    }
    assert(v@ =~= orig.subrange(0, start as int) + data@ + orig.subrange(start + data@.len(), orig.len() as int));
    v
}

/// What a buffer's shadow copy holds after `glBufferData` with data: the
/// data.
pub proof fn law_buffer_data_reads_back(s: BufferShadowView, target: u32, d: Seq<u8>)
    requires
        binding_of(s, target) != 0,
    ensures
        copy_of(store_of(buffer_data_spec(s, target, d.len() as int, Some(d)), target), binding_of(s, target))
            == d,
{
}

/// `glBufferSubData` reads back: the bound buffer's copy holds the data at
/// the offset, and keeps what it held before the offset.
pub proof fn law_sub_data_reads_back(s: BufferShadowView, target: u32, offset: int, d: Seq<u8>)
    requires
        binding_of(s, target) != 0,
        offset >= 0,
    ensures
        ({
            let copy = copy_of(
                store_of(buffer_sub_data_spec(s, target, offset, d.len() as int, Some(d)), target),
                binding_of(s, target),
            );
            let before = copy_of(store_of(s, target), binding_of(s, target));
            &&& copy.subrange(offset, offset + d.len()) == d
            &&& forall|i: int| 0 <= i < offset && i < before.len() ==> copy[i] == before[i]
        }),
{
    let b = binding_of(s, target);
    let before = copy_of(store_of(s, target), b);
    let padded = if offset + d.len() > before.len() {
        resized(before, offset + d.len())
    } else {
        before
    };
    let bytes = padded.subrange(0, offset) + d + padded.subrange(offset + d.len(), padded.len() as int);
    assert(store_of(buffer_sub_data_spec(s, target, offset, d.len() as int, Some(d)), target) == store_of(s, target).insert(b, bytes));
    assert(bytes.subrange(offset, offset + d.len()) =~= d);
    assert forall|i: int| 0 <= i < offset && i < before.len() implies bytes[i] == before[i] by {
        assert(bytes[i] == padded[i]);
    }
}

/// A mapping made for a target can be ended for it, and ending it leaves
/// nothing mapped.
pub proof fn law_map_then_unmap(s: BufferShadowView, target: u32)
    requires
        map_buffer_spec(s, target).1,
    ensures
        unmap_buffer_spec(map_buffer_spec(s, target).0, target).1,
        unmap_buffer_spec(map_buffer_spec(s, target).0, target).0.mapped is None,
{
}

/// A deleted buffer cannot be mapped while it stays bound.
pub proof fn law_deleted_buffer_cannot_be_mapped(s: BufferShadowView, target: u32, deleted: Seq<u32>)
    requires
        deleted.contains(binding_of(s, target)),
    ensures
        !map_buffer_spec(
            BufferShadowView {
                array_data: s.array_data.remove_keys(deleted.to_set()),
                element_data: s.element_data.remove_keys(deleted.to_set()),
                ..s
            },
            target,
        ).1,
{
}

} // verus!
