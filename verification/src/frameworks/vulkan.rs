//! A stand-in Vulkan loader: one instance version, three instance
//! extensions, one layer, one physical device with one graphics queue
//! family, and handles that are plain allocations. These functions say
//! what goes into guest memory; the caller reads the counts the guest
//! passes and writes what they give back.
use vstd::prelude::*;

verus! {

pub const VK_SUCCESS: i32 = 0;

pub const VK_INCOMPLETE: i32 = 5;

pub const VK_ERROR_INITIALIZATION_FAILED: i32 = -3;

pub const VK_QUEUE_GRAPHICS_BIT: u32 = 0x00000001;

pub const VK_MAX_EXTENSION_NAME_SIZE: usize = 256;

/// `VkExtensionProperties` is a name field and a version: 260 bytes.
pub const EXTENSION_PROPERTIES_SIZE: u32 = 260;

/// `VkLayerProperties` is a name field, two versions and a description
/// field: 520 bytes.
pub const LAYER_PROPERTIES_SIZE: u32 = 520;

/// `VkQueueFamilyProperties` is six 32-bit words: 24 bytes.
pub const QUEUE_FAMILY_PROPERTIES_SIZE: u32 = 24;

/// Vulkan 1.3.0.
pub fn instance_version() -> (r: u32)
    ensures
        r == 4206592,
{
    let r = (1u32 << 22u32) | (3u32 << 12u32);
    assert(r == 4206592) by (bit_vector)
        requires
            r == (1u32 << 22u32) | (3u32 << 12u32),
    ;
    r
}

/// The four bytes of `v`, least significant first.
pub open spec fn le32(v: u32) -> Seq<u8> {
    seq![(v % 256) as u8, (v / 256 % 256) as u8, (v / 65536 % 256) as u8, (v / 16777216) as u8]
}

/// A fixed name field: as many bytes of `name` as fit before a NUL, then
/// zeros.
pub open spec fn name_field(name: Seq<u8>) -> Seq<u8> {
    Seq::new(
        256,
        |i: int|
            if i < name.len() && i < 255 {
                name[i]
            } else {
                0u8
            },
    )
}

/// `VkExtensionProperties` for `name`, version 1.
pub open spec fn extension_properties(name: Seq<u8>) -> Seq<u8> {
    name_field(name) + le32(1)
}

/// `VkLayerProperties` for `name` and `description`, versions 1.
pub open spec fn layer_properties(name: Seq<u8>, description: Seq<u8>) -> Seq<u8> {
    name_field(name) + le32(1) + le32(1) + name_field(description)
}

/// The one queue family: graphics, one queue, 64 timestamp bits and a
/// transfer granularity of one texel.
pub open spec fn queue_family_properties() -> Seq<u8> {
    le32(VK_QUEUE_GRAPHICS_BIT) + le32(1) + le32(64) + le32(1) + le32(1) + le32(1)
}

fn push_le32(out: &mut Vec<u8>, v: u32)
    ensures
        final(out)@ == old(out)@ + le32(v),
{
    out.push((v % 256) as u8);
    out.push((v / 256 % 256) as u8);
    out.push((v / 65536 % 256) as u8);
    out.push((v / 16777216) as u8);
    assert(final(out)@ =~= old(out)@ + le32(v));
}

fn push_name_field(out: &mut Vec<u8>, name: &[u8])
    ensures
        final(out)@ == old(out)@ + name_field(name@),
{
    let ghost start = out@;
    let mut i: usize = 0;
    while i < 256
        invariant
            0 <= i <= 256,
            out@ == start + name_field(name@).subrange(0, i as int),
        decreases 256 - i,
    {
        let b = if i < name.len() && i < 255 {
            name[i]
        } else {
            0u8
        };
        out.push(b);
        assert(out@ =~= start + name_field(name@).subrange(0, i as int + 1));
        i = i + 1;
    }
    assert(name_field(name@).subrange(0, 256) =~= name_field(name@));
}

/// The bytes of `VkExtensionProperties` for `name`.
pub fn extension_properties_bytes(name: &[u8]) -> (r: Vec<u8>)
    ensures
        r@ == extension_properties(name@),
{
    let mut out: Vec<u8> = Vec::new();
    push_name_field(&mut out, name);
    push_le32(&mut out, 1);
    assert(out@ =~= extension_properties(name@));
    out
}

/// The bytes of `VkLayerProperties` for `name` and `description`.
pub fn layer_properties_bytes(name: &[u8], description: &[u8]) -> (r: Vec<u8>)
    ensures
        r@ == layer_properties(name@, description@),
{
    let mut out: Vec<u8> = Vec::new();
    push_name_field(&mut out, name);
    push_le32(&mut out, 1);
    push_le32(&mut out, 1);
    push_name_field(&mut out, description);
    assert(out@ =~= layer_properties(name@, description@));
    out
}

/// The bytes of the one `VkQueueFamilyProperties`.
pub fn queue_family_properties_bytes() -> (r: Vec<u8>)
    ensures
        r@ == queue_family_properties(),
{
    let mut out: Vec<u8> = Vec::new();
    push_le32(&mut out, VK_QUEUE_GRAPHICS_BIT);
    push_le32(&mut out, 1);
    push_le32(&mut out, 64);
    push_le32(&mut out, 1);
    push_le32(&mut out, 1);
    push_le32(&mut out, 1);
    assert(out@ =~= queue_family_properties());
    out
}

/// What an enumeration call does: its result, the count written back
/// (none where the count pointer is null), and the entries written to the
/// array, in order.
#[derive(Clone, Debug, PartialEq, Eq)]
pub struct Enumeration {
    pub result: i32,
    pub count: Option<u32>,
    pub entries: Vec<Vec<u8>>,
}

/// The entries as the contracts speak of them.
pub open spec fn entries_view(e: Seq<Vec<u8>>) -> Seq<Seq<u8>> {
    e.map_values(|v: Vec<u8>| v@)
}

/// The two-call enumeration idiom over `items`: a null count pointer is an
/// error; the count becomes the number of items; where an array is given,
/// as many items as the guest's count allowed are written, and a short
/// array is reported as incomplete.
pub open spec fn enumeration(
    items: Seq<Seq<u8>>,
    count_is_null: bool,
    requested: u32,
    array_is_null: bool,
) -> (i32, Option<u32>, Seq<Seq<u8>>) {
    if count_is_null {
        (VK_ERROR_INITIALIZATION_FAILED, None, Seq::empty())
    } else if array_is_null {
        (VK_SUCCESS, Some(items.len() as u32), Seq::empty())
    } else {
        let written = if requested < items.len() {
            requested as int
        } else {
            items.len() as int
        };
        (
            if written < items.len() {
                VK_INCOMPLETE
            } else {
                VK_SUCCESS
            },
            Some(items.len() as u32),
            items.subrange(0, written),
        )
    }
}

fn enumerate(items: Vec<Vec<u8>>, count_is_null: bool, requested: u32, array_is_null: bool) -> (r:
    Enumeration)
    requires
        items@.len() <= u32::MAX,
    ensures
        (r.result, r.count, entries_view(r.entries@)) == enumeration(
            entries_view(items@),
            count_is_null,
            requested,
            array_is_null,
        ),
{
    if count_is_null {
        let none: Vec<Vec<u8>> = Vec::new();
        assert(entries_view(none@) =~= Seq::<Seq<u8>>::empty());
        return Enumeration { result: VK_ERROR_INITIALIZATION_FAILED, count: None, entries: none };
    }
    let total = items.len() as u32;
    if array_is_null {
        let none: Vec<Vec<u8>> = Vec::new();
        assert(entries_view(none@) =~= Seq::<Seq<u8>>::empty());
        return Enumeration { result: VK_SUCCESS, count: Some(total), entries: none };
    }
    let written = if requested < total {
        requested
    } else {
        total
    };
    let mut entries = items;
    entries.truncate(written as usize);
    assert(entries_view(entries@) =~= entries_view(items@).subrange(0, written as int));
    Enumeration {
        result: if written < total {
            VK_INCOMPLETE
        } else {
            VK_SUCCESS
        },
        count: Some(total),
        entries,
    }
}

/// `vkEnumerateInstanceExtensionProperties`.
pub fn enumerate_instance_extension_properties(
    count_is_null: bool,
    requested: u32,
    array_is_null: bool,
) -> (r: Enumeration)
    ensures
        r.result == enumeration(instance_extension_items(), count_is_null, requested, array_is_null).0,
        r.count == enumeration(instance_extension_items(), count_is_null, requested, array_is_null).1,
        entries_view(r.entries@) == enumeration(
            instance_extension_items(),
            count_is_null,
            requested,
            array_is_null,
        ).2,
{
    let items = vec![
        extension_properties_bytes("VK_KHR_surface".as_bytes()),
        extension_properties_bytes("VK_EXT_metal_surface".as_bytes()),
        extension_properties_bytes("VK_KHR_portability_enumeration".as_bytes()),
    ];
    assert(entries_view(items@) =~= instance_extension_items());
    enumerate(items, count_is_null, requested, array_is_null)
}

/// The instance extensions offered, as their property records.
pub open spec fn instance_extension_items() -> Seq<Seq<u8>> {
    seq![
        extension_properties(vstd::string::StringSliceAdditionalSpecFns::spec_bytes("VK_KHR_surface")),
        extension_properties(vstd::string::StringSliceAdditionalSpecFns::spec_bytes("VK_EXT_metal_surface")),
        extension_properties(
            vstd::string::StringSliceAdditionalSpecFns::spec_bytes("VK_KHR_portability_enumeration"),
        ),
    ]
}

/// The one layer offered, as its property record.
pub open spec fn instance_layer_items() -> Seq<Seq<u8>> {
    seq![
        layer_properties(
            vstd::string::StringSliceAdditionalSpecFns::spec_bytes("MoltenVK"),
            vstd::string::StringSliceAdditionalSpecFns::spec_bytes(
                "RadekHLE Vulkan compatibility layer",
            ),
        ),
    ]
}

/// `vkEnumerateInstanceLayerProperties`.
pub fn enumerate_instance_layer_properties(count_is_null: bool, requested: u32, array_is_null: bool) -> (r:
    Enumeration)
    ensures
        r.result == enumeration(instance_layer_items(), count_is_null, requested, array_is_null).0,
        r.count == enumeration(instance_layer_items(), count_is_null, requested, array_is_null).1,
        entries_view(r.entries@) == enumeration(
            instance_layer_items(),
            count_is_null,
            requested,
            array_is_null,
        ).2,
{
    let items = vec![
        layer_properties_bytes("MoltenVK".as_bytes(), "RadekHLE Vulkan compatibility layer".as_bytes()),
    ];
    assert(entries_view(items@) =~= instance_layer_items());
    enumerate(items, count_is_null, requested, array_is_null)
}

/// What `vkEnumeratePhysicalDevices` and
/// `vkGetPhysicalDeviceQueueFamilyProperties` do: the result, the count
/// written back, and whether the one entry is written.
#[derive(Clone, Copy, Debug, PartialEq, Eq)]
pub struct SingleEnumeration {
    pub result: i32,
    pub count: Option<u32>,
    pub write_entry: bool,
}

/// The one-item enumeration: a null count pointer is an error; otherwise
/// the count becomes one, and the entry is written where an array is given
/// and the guest's count was not zero.
pub fn enumerate_single(count_is_null: bool, requested: u32, array_is_null: bool) -> (r:
    SingleEnumeration)
    ensures
        r == (if count_is_null {
            SingleEnumeration { result: VK_ERROR_INITIALIZATION_FAILED, count: None, write_entry: false }
        } else {
            SingleEnumeration {
                result: VK_SUCCESS,
                count: Some(1),
                write_entry: !array_is_null && requested != 0,
            }
        }),
{
    if count_is_null {
        SingleEnumeration { result: VK_ERROR_INITIALIZATION_FAILED, count: None, write_entry: false }
    } else {
        SingleEnumeration { result: VK_SUCCESS, count: Some(1), write_entry: !array_is_null && requested != 0 }
    }
}

/// `vkCreateInstance` and `vkCreateDevice`: a null out-pointer is an
/// error; otherwise a fresh 8-byte handle is written there.
pub fn create_handle_result(out_is_null: bool) -> (r: (i32, bool))
    ensures
        r == (if out_is_null {
            (VK_ERROR_INITIALIZATION_FAILED, false)
        } else {
            (VK_SUCCESS, true)
        }),
{
    if out_is_null {
        (VK_ERROR_INITIALIZATION_FAILED, false)
    } else {
        (VK_SUCCESS, true)
    }
}

} // verus!
