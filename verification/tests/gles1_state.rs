use touchhle::gles::gles1_state::{
    BufferShadow, Capabilities, ARRAY_BUFFER, CLIP_PLANE0, ELEMENT_ARRAY_BUFFER, FOG, LIGHTING,
    TEXTURE0, TEXTURE_2D, TEXTURE_COORD_ARRAY, VERTEX_ARRAY,
};

#[test]
fn capabilities_read_back_per_texture_unit() {
    let mut caps = Capabilities::new();
    assert_eq!(caps.is_enabled(FOG), Some(false));
    assert!(caps.set_enabled(FOG, true));
    assert_eq!(caps.is_enabled(FOG), Some(true));
    assert_eq!(caps.is_enabled(LIGHTING), Some(false));
    assert!(caps.set_enabled(TEXTURE_2D, true));
    assert_eq!(caps.active_texture(TEXTURE0 + 2), 2);
    assert_eq!(caps.is_enabled(TEXTURE_2D), Some(false));
    assert_eq!(caps.active_texture(TEXTURE0), 0);
    assert_eq!(caps.is_enabled(TEXTURE_2D), Some(true));
    assert_eq!(caps.active_texture(TEXTURE0 + 9), 3);
    assert_eq!(caps.active_texture(5), 0);
    assert!(caps.set_enabled(CLIP_PLANE0 + 5, true));
    assert_eq!(caps.is_enabled(CLIP_PLANE0 + 5), Some(true));
    assert_eq!(caps.is_enabled(CLIP_PLANE0 + 4), Some(false));
    // Blending is left to the driver.
    assert!(!caps.set_enabled(0x0BE2, true));
    assert_eq!(caps.is_enabled(0x0BE2), None);
}

#[test]
fn client_arrays_follow_the_client_active_unit() {
    let mut caps = Capabilities::new();
    caps.set_client_state(VERTEX_ARRAY, true);
    assert!(caps.arrays[0]);
    caps.client_active_texture(TEXTURE0 + 1);
    caps.set_client_state(TEXTURE_COORD_ARRAY, true);
    assert_eq!(caps.texcoord_arrays, vec![false, true, false, false]);
    caps.set_client_state(VERTEX_ARRAY, false);
    assert!(!caps.arrays[0]);
}

#[test]
fn buffer_copies_follow_data_and_sub_data() {
    let mut buffers = BufferShadow::new();
    buffers.buffer_data(ARRAY_BUFFER, 4, Some(&[1, 2, 3, 4]));
    assert!(buffers.shadow_copy(ARRAY_BUFFER, 0).is_none());
    buffers.bind_buffer(ARRAY_BUFFER, 7);
    buffers.buffer_data(ARRAY_BUFFER, 4, Some(&[1, 2, 3, 4]));
    assert_eq!(buffers.shadow_copy(ARRAY_BUFFER, 7), Some(&vec![1, 2, 3, 4]));
    buffers.buffer_sub_data(ARRAY_BUFFER, 2, 4, Some(&[9, 9, 9, 9]));
    assert_eq!(buffers.shadow_copy(ARRAY_BUFFER, 7), Some(&vec![1, 2, 9, 9, 9, 9]));
    buffers.buffer_data(ARRAY_BUFFER, 3, None);
    assert_eq!(buffers.shadow_copy(ARRAY_BUFFER, 7), Some(&vec![1, 2, 9]));
    buffers.buffer_data(ARRAY_BUFFER, 5, None);
    assert_eq!(buffers.shadow_copy(ARRAY_BUFFER, 7), Some(&vec![1, 2, 9, 0, 0]));
    assert!(buffers.shadow_copy(ELEMENT_ARRAY_BUFFER, 7).is_none());
}

#[test]
fn mapping_needs_a_bound_shadowed_buffer() {
    let mut buffers = BufferShadow::new();
    assert!(!buffers.map_buffer(ELEMENT_ARRAY_BUFFER));
    buffers.bind_buffer(ELEMENT_ARRAY_BUFFER, 3);
    assert!(!buffers.map_buffer(ELEMENT_ARRAY_BUFFER));
    buffers.buffer_data(ELEMENT_ARRAY_BUFFER, 2, Some(&[5, 6]));
    assert!(buffers.map_buffer(ELEMENT_ARRAY_BUFFER));
    assert_eq!(buffers.mapped, Some((ELEMENT_ARRAY_BUFFER, 3)));
    assert!(!buffers.unmap_buffer(ARRAY_BUFFER));
    assert!(buffers.unmap_buffer(ELEMENT_ARRAY_BUFFER));
    assert!(!buffers.unmap_buffer(ELEMENT_ARRAY_BUFFER));
    buffers.delete_buffers(&[3]);
    assert!(!buffers.map_buffer(ELEMENT_ARRAY_BUFFER));
}
