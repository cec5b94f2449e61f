//! Descriptions of objects for tracing: what type an object has, whether its tag is sound, and
//! what a generic memory holds.

use crate::datatypes::{
    datatype_of_tag, has_small_tag, live_datatype, live_type_of_tag, mmtk_jl_typeof_resolving,
    mmtk_jl_typetagof, resolve_datatype_ptr, resolve_forwarded_datatype_addr, typetag,
};
use crate::heap::{Heap, HeapView, ObjectReference};
use crate::julia_types::{BitField, SMALL_TAG_LIMIT};
use crate::layouts::{mmtk_jl_svec_data, mmtk_jl_svec_len, signed, svec_data, svec_len};
use crate::memory::{offset_by, offset_words, wrap, Address};
use crate::text::{
    append_decimal, append_hex, append_signed, decimal, from_utf8_lossy, hex, lossy_text,
};
use vstd::prelude::*;

verus! {

/// The number of bytes after which the name of a symbol is cut off.
pub const MAX_NAME_LEN: u64 = 256;

/// The bytes from `at` up to, but without, the first zero byte; no more than `n`.
pub open spec fn bytes_to_zero(h: HeapView, at: u64, n: nat) -> Seq<u8>
    decreases n,
{
    if n == 0 || h.byte(at) == 0 {
        Seq::empty()
    } else {
        seq![h.byte(at)] + bytes_to_zero(h, wrap(at + 1), (n - 1) as nat)
    }
}

/// The bytes of the name of a symbol.
pub open spec fn name_bytes(h: HeapView, sym: u64) -> Seq<u8> {
    bytes_to_zero(h, wrap(sym + h.config.abi.symbol_size), MAX_NAME_LEN as nat)
}

/// The name of a symbol as text.
pub open spec fn symbol_text(h: HeapView, sym: u64) -> Seq<char> {
    if sym == 0 {
        "<null-sym>"@
    } else {
        lossy_text(name_bytes(h, sym))
    }
}

/// Reads the bytes of the name of a symbol.
pub fn symbol_name_bytes(heap: &Heap, sym: Address) -> (r: Vec<u8>)
    ensures
        r@ == name_bytes(heap@, sym),
{
    let ghost h = heap@;
    let mut bytes: Vec<u8> = Vec::new();
    let mut at: u64 = offset_by(sym, heap.config.abi.symbol_size);
    let mut left: u64 = MAX_NAME_LEN;
    while left > 0 && heap.load_u8(at) != 0
        invariant
            h == heap@,
            name_bytes(h, sym) =~= bytes@ + bytes_to_zero(h, at, left as nat),
        decreases left,
    {
        bytes.push(heap.load_u8(at));
        at = offset_by(at, 1);
        left = left - 1;
    }
    bytes
}

/// Reads the name of a symbol.
pub fn debug_symbol_name(heap: &Heap, sym: Address) -> (r: String)
    ensures
        r@ == symbol_text(heap@, sym),
{
    if sym == 0 {
        return String::from_str("<null-sym>");
    }
    let bytes: Vec<u8> = symbol_name_bytes(heap, sym);
    from_utf8_lossy(&bytes)
}

/// The value of a bit field of the struct at `a`.
pub open spec fn flag(h: HeapView, a: u64, field: BitField) -> u16 {
    field.of(h.half(wrap(a + field.offset)))
}

/// Reads a bit field of the struct at `a`.
fn read_flag(heap: &Heap, a: Address, field: BitField) -> (r: u16)
    requires
        field.wf(),
    ensures
        r == flag(heap@, a, field),
{
    field.extract(heap.load_u16(offset_by(a, field.offset)))
}

/// Whether the type tag of an object is sound: a small tag, or a pointer to a mapped type that is
/// tagged as a type and has no small tag of its own.
pub open spec fn tag_is_sound(h: HeapView, obj: u64) -> bool {
    let live = live_datatype(h, typetag(h, obj));
    ||| typetag(h, obj) < SMALL_TAG_LIMIT
    ||| live < SMALL_TAG_LIMIT
    ||| {
        &&& h.is_mapped(live)
        &&& has_small_tag(h, live, h.config.tags.datatype)
        &&& flag(h, datatype_of_tag(h, live), h.config.abi.datatype_smalltag) == 0
    }
}

/// Tests whether the type tag of an object is sound. An unsound tag belongs to an object that was
/// freed or overwritten.
pub fn debug_julia_object_tag_is_valid(heap: &Heap, object: ObjectReference) -> (r: bool)
    requires
        heap@.wf(),
    ensures
        r == tag_is_sound(heap@, object.raw),
{
    let vtag: u64 = mmtk_jl_typetagof(heap, object.to_raw_address());
    if vtag < SMALL_TAG_LIMIT {
        return true;
    }
    let live: u64 = resolve_forwarded_datatype_addr(heap, vtag);
    if live < SMALL_TAG_LIMIT {
        return true;
    }
    if !heap.is_mapped(live) {
        return false;
    }
    let vt: u64 = resolve_datatype_ptr(heap, live);
    mmtk_jl_typetagof(heap, live) == heap.config.tags.datatype * 16 && read_flag(
        heap,
        vt,
        heap.config.abi.datatype_smalltag,
    ) == 0
}

/// The type name that the live type tag of an object leads to; none for a small tag, and for a
/// tag that is not mapped or not tagged as a type.
pub open spec fn typename_of_object(h: HeapView, obj: u64) -> Option<u64> {
    let vtag = typetag(h, obj);
    let live = live_datatype(h, vtag);
    if vtag < SMALL_TAG_LIMIT || !h.is_mapped(live) || !has_small_tag(
        h,
        live,
        h.config.tags.datatype,
    ) {
        None
    } else {
        Some(h.field(datatype_of_tag(h, live), h.config.abi.datatype_name))
    }
}

/// The name of the type of an object, given the text of its symbol.
pub open spec fn type_name_with(h: HeapView, obj: u64, symbol: Seq<char>) -> Seq<char> {
    if typetag(h, obj) < SMALL_TAG_LIMIT {
        "<smalltag "@ + hex(typetag(h, obj) as int) + ">"@
    } else {
        match typename_of_object(h, obj) {
            None => Seq::empty(),
            Some(tn) => if tn == 0 {
                "<null-typename>"@
            } else {
                symbol
            },
        }
    }
}

/// The symbol of a type name, as text; empty for none.
pub open spec fn typename_text(h: HeapView, tn: u64) -> Seq<char> {
    if tn == 0 {
        Seq::empty()
    } else {
        symbol_text(h, h.field(tn, h.config.abi.typename_name))
    }
}

/// Finds the type name that the live type tag of an object leads to.
pub fn find_typename(heap: &Heap, object: ObjectReference) -> (r: Option<Address>)
    requires
        heap@.wf(),
    ensures
        r == typename_of_object(heap@, object.raw),
{
    let vtag: u64 = mmtk_jl_typetagof(heap, object.to_raw_address());
    if vtag < SMALL_TAG_LIMIT {
        return None;
    }
    let live: u64 = resolve_forwarded_datatype_addr(heap, vtag);
    if !heap.is_mapped(live) {
        return None;
    }
    let vt: u64 = resolve_datatype_ptr(heap, live);
    if mmtk_jl_typetagof(heap, live) != heap.config.tags.datatype * 16 {
        return None;
    }
    Some(heap.load_field(vt, heap.config.abi.datatype_name))
}

/// What is said of an object that is probably corrupt: the tag that names no type, and the
/// forwarding status of what lies there.
pub open spec fn corruption_text(tag: u64, status: u8) -> Seq<char> {
    "GC warning (probable corruption ignored) - !jl_is_datatype = true, vt = "@ + decimal(
        tag as int,
    ) + ", type_tag = 0, forwarding_status = "@ + decimal(status as int)
}

/// Words the warning about an object that is probably corrupt.
pub fn corruption_warning(tag: Address, status: u8) -> (r: String)
    ensures
        r@ == corruption_text(tag, status),
{
    let mut text: String = String::from_str(
        "GC warning (probable corruption ignored) - !jl_is_datatype = true, vt = ",
    );
    append_decimal(&mut text, tag);
    text.append(", type_tag = 0, forwarding_status = ");
    append_decimal(&mut text, status as u64);
    text
}

/// Names the type of an object, given the text of the symbol of that type.
pub fn type_name_from(heap: &Heap, object: ObjectReference, symbol: &str) -> (r: String)
    requires
        heap@.wf(),
    ensures
        r@ == type_name_with(heap@, object.raw, symbol@),
{
    let vtag: u64 = mmtk_jl_typetagof(heap, object.to_raw_address());
    if vtag < SMALL_TAG_LIMIT {
        let mut text: String = String::from_str("<smalltag ");
        append_hex(&mut text, vtag);
        text.append(">");
        return text;
    }
    match find_typename(heap, object) {
        None => String::new(),
        Some(tn) => if tn == 0 {
            String::from_str("<null-typename>")
        } else {
            String::from_str(symbol)
        },
    }
}

/// Names the type of an object. The name is empty for an unsound tag.
pub fn debug_julia_object_type_name(heap: &Heap, object: ObjectReference) -> (r: String)
    requires
        heap@.wf(),
    ensures
        r@ == type_name_with(
            heap@,
            object.raw,
            match typename_of_object(heap@, object.raw) {
                None => Seq::empty(),
                Some(tn) => typename_text(heap@, tn),
            },
        ),
{
    let symbol: String = match find_typename(heap, object) {
        None => String::new(),
        Some(tn) => if tn == 0 {
            String::new()
        } else {
            debug_symbol_name(heap, heap.load_field(tn, heap.config.abi.typename_name))
        },
    };
    type_name_from(heap, object, symbol.as_str())
}

/// Where the element type of a generic memory type is to be found.
pub enum ElementType {
    /// The type has no parameters.
    NoParameters,
    /// The type has one parameter or none.
    TooFewParameters,
    /// The parameter is missing.
    Absent,
    /// The parameter is a type with this type name.
    Named(Address),
    /// The parameter is something else, with this tag.
    Other(Address),
}

/// The element type of a generic memory type: its second parameter.
pub open spec fn element_type(h: HeapView, vt: u64) -> ElementType {
    let params = h.field(vt, h.config.abi.datatype_parameters);
    let elt = h.word(wrap(svec_data(h, params) + 8));
    let name = h.field(elt, h.config.abi.datatype_name);
    if params == 0 {
        ElementType::NoParameters
    } else if svec_len(h, params) < 2 {
        ElementType::TooFewParameters
    } else if elt == 0 {
        ElementType::Absent
    } else if has_small_tag(h, elt, h.config.tags.datatype) && name != 0 {
        ElementType::Named(name)
    } else {
        ElementType::Other(typetag(h, elt))
    }
}

/// Finds the element type of a generic memory type.
pub fn find_element_type(heap: &Heap, vt: Address) -> (r: ElementType)
    requires
        heap@.wf(),
    ensures
        r == element_type(heap@, vt),
{
    let params: u64 = heap.load_field(vt, heap.config.abi.datatype_parameters);
    if params == 0 {
        return ElementType::NoParameters;
    }
    if mmtk_jl_svec_len(heap, params) < 2 {
        return ElementType::TooFewParameters;
    }
    let elt: u64 = heap.load_u64(offset_words(mmtk_jl_svec_data(heap, params), 1));
    if elt == 0 {
        return ElementType::Absent;
    }
    let elt_tag: u64 = mmtk_jl_typetagof(heap, elt);
    let name: u64 = heap.load_field(elt, heap.config.abi.datatype_name);
    if elt_tag == heap.config.tags.datatype * 16 && name != 0 {
        ElementType::Named(name)
    } else {
        ElementType::Other(elt_tag)
    }
}

/// The element type as text, given the text of its symbol.
pub open spec fn element_text(e: ElementType, symbol: Seq<char>) -> Seq<char> {
    match e {
        ElementType::NoParameters => "<no-params>"@,
        ElementType::TooFewParameters => "<svec<2>"@,
        ElementType::Absent => "<null-elt>"@,
        ElementType::Named(_) => symbol,
        ElementType::Other(tag) => "<elt-tag="@ + hex(tag as int) + ">"@,
    }
}

/// The number of words of a generic memory that a description shows: the first twenty, or all where
/// there are fewer.
pub open spec fn sample_len(length: u64) -> int {
    if length < 20 {
        length as int
    } else {
        20
    }
}

/// One word of a sample.
pub open spec fn sample_word(h: HeapView, data: u64, i: int) -> Seq<char> {
    let a = wrap(data + 8 * i);
    " ["@ + decimal(i) + (if h.is_mapped(a) {
        "]="@ + hex(h.word(a) as int)
    } else {
        "]=<unmapped>"@
    })
}

/// The words from `lo` up to `hi`.
pub open spec fn sample(h: HeapView, data: u64, lo: int, hi: int) -> Seq<char>
    decreases hi - lo,
{
    if lo >= hi {
        Seq::empty()
    } else {
        sample(h, data, lo, hi - 1) + sample_word(h, data, hi - 1)
    }
}

/// What a description shows of a layout: two flags, the first pointer and the pointer count; minus
/// one each where there is no layout.
pub open spec fn layout_facts(h: HeapView, layout: u64) -> (int, int, int, int) {
    let abi = h.config.abi;
    if layout == 0 {
        (-1, -1, -1, -1)
    } else {
        (
            flag(h, layout, abi.layout_arrayelem_isboxed) as int,
            flag(h, layout, abi.layout_arrayelem_isunion) as int,
            signed(h.quad(wrap(layout + abi.layout_first_ptr))),
            signed(h.quad(wrap(layout + abi.layout_npointers))),
        )
    }
}

/// What a description shows of a layout, as text.
pub open spec fn layout_text(h: HeapView, layout: u64) -> Seq<char> {
    let facts = layout_facts(h, layout);
    " isboxed="@ + decimal(facts.0) + " isunion="@ + decimal(facts.1) + " first_ptr="@ + decimal(
        facts.2,
    ) + " npointers="@ + decimal(facts.3)
}

/// The description of a generic memory, given the text of the symbol of its element type.
pub open spec fn memory_text(h: HeapView, obj: u64, vt: u64, symbol: Seq<char>) -> Seq<char> {
    let abi = h.config.abi;
    let length = h.field(obj, abi.genericmemory_length);
    let data = h.field(obj, abi.genericmemory_ptr);
    "GenericMemory{"@ + element_text(element_type(h, vt), symbol) + "} vt="@ + hex(vt as int)
        + " how="@ + decimal(h.memory_kind(obj) as int) + " len="@ + decimal(length as int)
        + " dataptr="@ + hex(data as int) + layout_text(h, h.field(vt, abi.datatype_layout))
        + " zeroinit="@ + decimal(flag(h, vt, abi.datatype_zeroinit) as int) + " data:["@ + sample(
        h,
        data,
        0,
        sample_len(length),
    ) + " ]"@
}

/// Whether a type is that of a generic memory.
pub open spec fn is_memory_type(h: HeapView, vt: u64) -> bool {
    h.field(vt, h.config.abi.datatype_name) == h.config.types.genericmemory_typename
}

/// The symbol whose text the description of an object of type `vt` needs.
pub open spec fn described_symbol(h: HeapView, vt: u64) -> Option<u64> {
    let tn = h.field(vt, h.config.abi.datatype_name);
    if vt == 0 {
        None
    } else if is_memory_type(h, vt) {
        match element_type(h, vt) {
            ElementType::Named(name) => Some(h.field(name, h.config.abi.typename_name)),
            _ => None,
        }
    } else if tn == 0 || !h.is_mapped(tn) {
        None
    } else {
        Some(h.field(tn, h.config.abi.typename_name))
    }
}

/// The description of an object, given the text of the symbol that it needs, if it needs one.
pub open spec fn description(h: HeapView, obj: u64, symbol: Option<Seq<char>>) -> Seq<char> {
    let vt = live_type_of_tag(h, typetag(h, obj));
    if vt == 0 {
        "<null-vt obj="@ + hex(obj as int) + ">"@
    } else if is_memory_type(h, vt) {
        memory_text(h, obj, vt, symbol.unwrap_or(Seq::empty()))
    } else {
        symbol.unwrap_or("<invalid-typename>"@) + " vt="@ + hex(vt as int)
    }
}

/// The number that two's-complement bits stand for.
fn read_signed(bits: u32) -> (r: i32)
    ensures
        r == signed(bits),
{
    if bits < 0x8000_0000 {
        bits as i32
    } else {
        let below: i64 = bits as i64 - 0x1_0000_0000;
        below as i32
    }
}

/// Appends what a description shows of an element type.
fn append_element(text: &mut String, e: &ElementType, symbol: &str)
    ensures
        final(text)@ == old(text)@ + element_text(*e, symbol@),
{
    match e {
        ElementType::NoParameters => text.append("<no-params>"),
        ElementType::TooFewParameters => text.append("<svec<2>"),
        ElementType::Absent => text.append("<null-elt>"),
        ElementType::Named(_) => text.append(symbol),
        ElementType::Other(tag) => {
            text.append("<elt-tag=");
            append_hex(text, *tag);
            text.append(">");
        },
    }
    assert(text@ =~= old(text)@ + element_text(*e, symbol@));
}

/// Appends the words that a description shows.
fn append_sample(heap: &Heap, text: &mut String, data: Address, length: u64)
    ensures
        final(text)@ == old(text)@ + sample(heap@, data, 0, sample_len(length)),
{
    let ghost h = heap@;
    let hi: u64 = if length < 20 {
        length
    } else {
        20
    };
    let mut i: u64 = 0;
    assert(old(text)@ + Seq::<char>::empty() =~= old(text)@);
    while i < hi
        invariant
            i <= hi,
            h == heap@,
            text@ == old(text)@ + sample(h, data, 0, i as int),
        decreases hi - i,
    {
        let ghost before = text@;
        let a: u64 = offset_words(data, i);
        text.append(" [");
        append_decimal(text, i);
        if heap.is_mapped(a) {
            text.append("]=");
            append_hex(text, heap.load_u64(a));
        } else {
            text.append("]=<unmapped>");
        }
        proof {
            assert(text@ =~= before + sample_word(h, data, i as int));
            let shown = sample(h, data, 0, i as int);
            let one = sample_word(h, data, i as int);
            assert(old(text)@ + shown + one =~= old(text)@ + (shown + one));
        }
        i = i + 1;
    }
}

/// Appends what a description shows of a layout.
fn append_layout(heap: &Heap, text: &mut String, layout: Address)
    requires
        heap@.wf(),
    ensures
        final(text)@ == old(text)@ + layout_text(heap@, layout),
{
    let abi = heap.config.abi;
    let (isboxed, isunion, first, pointers): (i32, i32, i32, i32) = if layout == 0 {
        (-1, -1, -1, -1)
    } else {
        (
            read_flag(heap, layout, abi.layout_arrayelem_isboxed) as i32,
            read_flag(heap, layout, abi.layout_arrayelem_isunion) as i32,
            read_signed(heap.load_u32(offset_by(layout, abi.layout_first_ptr))),
            read_signed(heap.load_u32(offset_by(layout, abi.layout_npointers))),
        )
    };
    text.append(" isboxed=");
    append_signed(text, isboxed);
    text.append(" isunion=");
    append_signed(text, isunion);
    text.append(" first_ptr=");
    append_signed(text, first);
    text.append(" npointers=");
    append_signed(text, pointers);
    assert(text@ =~= old(text)@ + layout_text(heap@, layout));
}

/// Describes a generic memory, given the text of the symbol of its element type.
fn describe_memory(heap: &Heap, obj: Address, vt: Address, symbol: &str) -> (r: String)
    requires
        heap@.wf(),
    ensures
        r@ == memory_text(heap@, obj, vt, symbol@),
{
    let abi = heap.config.abi;
    let e = find_element_type(heap, vt);
    let length: u64 = heap.load_field(obj, abi.genericmemory_length);
    let data: u64 = heap.load_field(obj, abi.genericmemory_ptr);
    let mut text: String = String::from_str("GenericMemory{");
    append_element(&mut text, &e, symbol);
    text.append("} vt=");
    append_hex(&mut text, vt);
    text.append(" how=");
    append_decimal(&mut text, heap.memory_kind(obj) as u64);
    text.append(" len=");
    append_decimal(&mut text, length);
    text.append(" dataptr=");
    append_hex(&mut text, data);
    append_layout(heap, &mut text, heap.load_field(vt, abi.datatype_layout));
    text.append(" zeroinit=");
    append_decimal(&mut text, read_flag(heap, vt, abi.datatype_zeroinit) as u64);
    text.append(" data:[");
    append_sample(heap, &mut text, data, length);
    text.append(" ]");
    text
}

/// Describes an object, given the text of the symbol that the description needs, if it needs one.
pub fn describe_from(heap: &Heap, object: ObjectReference, symbol: Option<&str>) -> (r: String)
    requires
        heap@.wf(),
    ensures
        r@ == description(
            heap@,
            object.raw,
            match symbol {
                None => None,
                Some(text) => Some(text@),
            },
        ),
{
    let obj: u64 = object.to_raw_address();
    let vt: u64 = mmtk_jl_typeof_resolving(heap, obj);
    if vt == 0 {
        let mut text: String = String::from_str("<null-vt obj=");
        append_hex(&mut text, obj);
        text.append(">");
        return text;
    }
    if heap.load_field(vt, heap.config.abi.datatype_name)
        == heap.config.types.genericmemory_typename {
        return match symbol {
            None => {
                let none: String = String::new();
                describe_memory(heap, obj, vt, none.as_str())
            },
            Some(name) => describe_memory(heap, obj, vt, name),
        };
    }
    let mut text: String = match symbol {
        None => String::from_str("<invalid-typename>"),
        Some(name) => String::from_str(name),
    };
    text.append(" vt=");
    append_hex(&mut text, vt);
    text
}

/// Finds the symbol whose text the description of an object of type `vt` needs.
pub fn find_described_symbol(heap: &Heap, vt: Address) -> (r: Option<Address>)
    requires
        heap@.wf(),
    ensures
        r == described_symbol(heap@, vt),
{
    if vt == 0 {
        return None;
    }
    let tn: u64 = heap.load_field(vt, heap.config.abi.datatype_name);
    if tn == heap.config.types.genericmemory_typename {
        return match find_element_type(heap, vt) {
            ElementType::Named(name) => Some(
                heap.load_field(name, heap.config.abi.typename_name),
            ),
            _ => None,
        };
    }
    if tn == 0 || !heap.is_mapped(tn) {
        return None;
    }
    Some(heap.load_field(tn, heap.config.abi.typename_name))
}

/// Describes an object: its type, and for a generic memory also its element type, its layout and
/// a sample of its words.
pub fn debug_describe_julia_object(heap: &Heap, object: ObjectReference) -> (r: String)
    requires
        heap@.wf(),
    ensures
        r@ == description(
            heap@,
            object.raw,
            match described_symbol(heap@, live_type_of_tag(heap@, typetag(heap@, object.raw))) {
                None => None,
                Some(sym) => Some(symbol_text(heap@, sym)),
            },
        ),
{
    let vt: u64 = mmtk_jl_typeof_resolving(heap, object.to_raw_address());
    match find_described_symbol(heap, vt) {
        None => describe_from(heap, object, None),
        Some(sym) => {
            let name: String = debug_symbol_name(heap, sym);
            describe_from(heap, object, Some(name.as_str()))
        },
    }
}

} // verus!
