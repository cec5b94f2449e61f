//! What the scanner knows of the runtime's C types: where their fields are, how large they are,
//! and which small type tags the runtime uses.
//!
//! The runtime is compiled separately, so these numbers are data here and not constants.

use vstd::prelude::*;

verus! {

/// Pointers below this address are never those of an object.
pub const MIN_POINTER: u64 = 0x20000;

/// The number of small type tags that the runtime sets aside.
pub const JL_MAX_TAGS: u64 = 64;

/// Type tags below this value are small tags, not pointers to a type.
pub const SMALL_TAG_LIMIT: u64 = 1024;

/// The number of entries of the table that maps small tags to types.
pub const SMALL_TYPEOF_LEN: u64 = 128;

/// The size of the tagged-value header in front of every object.
pub const TAGGED_VALUE_SIZE: u64 = 8;

/// A bit field inside a 16-bit number of a C struct.
#[derive(Clone, Copy, PartialEq, Eq, Structural, Debug)]
pub struct BitField {
    /// Byte offset of the 16-bit number in the struct.
    pub offset: u64,
    /// Position of the lowest bit of the field.
    pub shift: u16,
    /// The bits of the field, moved down to bit zero.
    pub mask: u16,
}

impl BitField {
    pub open spec fn wf(self) -> bool {
        self.shift < 16
    }

    /// The value of the field, given the number that holds it.
    pub open spec fn of(self, number: u16) -> u16 {
        (number >> self.shift) & self.mask
    }

    /// Takes the field out of the number that holds it.
    pub fn extract(&self, number: u16) -> (r: u16)
        requires
            self.wf(),
        ensures
            r == self.of(number),
    {
        (number >> self.shift) & self.mask
    }
}

/// Field offsets and sizes of the runtime's C structs, in bytes.
#[derive(Clone, Copy, PartialEq, Eq, Structural, Debug)]
pub struct JuliaAbi {
    /// Size of `jl_svec_t`, which is also where the elements of a simple vector start.
    pub svec_size: u64,
    /// Offset of the length in `jl_svec_t`.
    pub svec_length: u64,
    /// Size of `jl_datatype_t`.
    pub datatype_size: u64,
    /// Offset of the type name in `jl_datatype_t`.
    pub datatype_name: u64,
    /// Offset of the supertype in `jl_datatype_t`.
    pub datatype_super: u64,
    /// Offset of the parameter vector in `jl_datatype_t`.
    pub datatype_parameters: u64,
    /// Offset of the layout pointer in `jl_datatype_t`.
    pub datatype_layout: u64,
    /// The small tag that a type stands for, or zero.
    pub datatype_smalltag: BitField,
    /// Whether instances of a type must start out zeroed.
    pub datatype_zeroinit: BitField,
    /// Offset of the symbol in `jl_typename_t`.
    pub typename_name: u64,
    /// Offset of the module in `jl_typename_t`.
    pub typename_module: u64,
    /// Offset of the wrapper in `jl_typename_t`.
    pub typename_wrapper: u64,
    /// Offset of the type of the wrapper in `jl_typename_t`.
    pub typename_typeofwrapper: u64,
    /// Offset of the field names in `jl_typename_t`.
    pub typename_names: u64,
    /// Offset of the sorted type cache in `jl_typename_t`.
    pub typename_cache: u64,
    /// Offset of the linear type cache in `jl_typename_t`.
    pub typename_linearcache: u64,
    /// Offset of the incomplete types in `jl_typename_t`.
    pub typename_partial: u64,
    /// Size of `jl_datatype_layout_t`, which is also where the field descriptors start.
    pub layout_header_size: u64,
    /// Offset of the 32-bit instance size in `jl_datatype_layout_t`.
    pub layout_size: u64,
    /// Offset of the 32-bit field count in `jl_datatype_layout_t`.
    pub layout_nfields: u64,
    /// Offset of the 32-bit pointer count in `jl_datatype_layout_t`.
    pub layout_npointers: u64,
    /// Offset of the signed 32-bit word index of the first pointer in `jl_datatype_layout_t`.
    pub layout_first_ptr: u64,
    /// The width class of the field descriptors and of the pointer table.
    pub layout_fielddesc_type: BitField,
    /// Whether the elements of an array type are pointers.
    pub layout_arrayelem_isboxed: BitField,
    /// Whether the elements of an array type carry a selector byte each.
    pub layout_arrayelem_isunion: BitField,
    /// Size of `jl_module_t`.
    pub module_size: u64,
    /// Offset of the bindings in `jl_module_t`.
    pub module_bindings: u64,
    /// Offset of the binding key set in `jl_module_t`.
    pub module_bindingkeyset: u64,
    /// Offset of the parent module in `jl_module_t`.
    pub module_parent: u64,
    /// Offset of the back edges of the used modules in `jl_module_t`.
    pub module_usings_backedges: u64,
    /// Offset of the scanned methods in `jl_module_t`.
    pub module_scanned_methods: u64,
    /// Offset of the list of used modules in `jl_module_t`.
    pub module_usings: u64,
    /// Offset of the length in `arraylist_t`.
    pub arraylist_len: u64,
    /// Offset of the item pointer in `arraylist_t`.
    pub arraylist_items: u64,
    /// Offset of the inline space in `arraylist_t`.
    pub arraylist_space: u64,
    /// Size of `jl_task_t`.
    pub task_size: u64,
    /// Offset of the shadow stack in `jl_task_t`.
    pub task_gcstack: u64,
    /// Offset of the exception stack in `jl_task_t`.
    pub task_excstack: u64,
    /// Offset of the thread state pointer in `jl_task_t`.
    pub task_ptls: u64,
    /// Offset of the 16-bit thread id in `jl_task_t`.
    pub task_tid: u64,
    /// Offset of the stack buffer in `jl_task_t`.
    pub task_stkbuf: u64,
    /// Offset of the 32-bit number that holds the size of a copied stack in `jl_task_t`.
    pub task_copy_stack: u64,
    /// The bits of that number that are the size.
    pub task_copy_stack_mask: u32,
    /// Offset of the data pointer in `jl_array_t`.
    pub array_ptr_or_offset: u64,
    /// Offset of the backing memory in `jl_array_t`.
    pub array_mem: u64,
    /// Offset of the first dimension in `jl_array_t`.
    pub array_dimsize: u64,
    /// Size of `jl_genericmemory_t`.
    pub genericmemory_size: u64,
    /// Offset of the length in `jl_genericmemory_t`.
    pub genericmemory_length: u64,
    /// Offset of the data pointer in `jl_genericmemory_t`.
    pub genericmemory_ptr: u64,
    /// Size of `jl_sym_t`, which is also where the name of a symbol starts.
    pub symbol_size: u64,
    /// Offset of the root count in `jl_gcframe_t`.
    pub gcframe_nroots: u64,
    /// Offset of the enclosing frame in `jl_gcframe_t`.
    pub gcframe_prev: u64,
    /// Offset of the root task in the thread state.
    pub tls_root_task: u64,
    /// Offset of the number of live tasks in the thread state.
    pub tls_live_tasks_len: u64,
    /// Offset of the live tasks in the thread state.
    pub tls_live_tasks_items: u64,
    /// Offset of the current task in the thread state.
    pub tls_current_task: u64,
    /// Offset of the next task in the thread state.
    pub tls_next_task: u64,
    /// Offset of the previous task in the thread state.
    pub tls_previous_task: u64,
    /// Offset of the previous exception in the thread state.
    pub tls_previous_exception: u64,
    /// Offset of the length of the backtrace buffer in the thread state.
    pub tls_bt_size: u64,
    /// Offset of the backtrace buffer in the thread state.
    pub tls_bt_data: u64,
}

impl JuliaAbi {
    /// The bit fields lie inside the numbers that hold them; a width class has two bits.
    pub open spec fn wf(self) -> bool {
        &&& self.datatype_smalltag.wf()
        &&& self.datatype_zeroinit.wf()
        &&& self.layout_fielddesc_type.wf()
        &&& self.layout_fielddesc_type.mask <= 3
        &&& self.layout_arrayelem_isboxed.wf()
        &&& self.layout_arrayelem_isunion.wf()
    }

    /// Checks the bit fields.
    pub fn is_well_formed(&self) -> (r: bool)
        ensures
            r == self.wf(),
    {
        self.datatype_smalltag.shift < 16 && self.datatype_zeroinit.shift < 16
            && self.layout_fielddesc_type.shift < 16 && self.layout_fielddesc_type.mask <= 3
            && self.layout_arrayelem_isboxed.shift < 16 && self.layout_arrayelem_isunion.shift < 16
    }
}

/// The small type tags with a meaning to the scanner.
#[derive(Clone, Copy, PartialEq, Eq, Structural, Debug)]
pub struct SmallTags {
    pub datatype: u64,
    pub unionall: u64,
    pub uniontype: u64,
    pub tvar: u64,
    pub vararg: u64,
    pub symbol: u64,
    pub module: u64,
    pub simplevector: u64,
    pub string: u64,
    pub task: u64,
    /// One more than the largest small tag.
    pub max_tags: u64,
}

impl SmallTags {
    /// The table of types has an entry for every small tag.
    pub open spec fn wf(self) -> bool {
        &&& self.max_tags <= JL_MAX_TAGS
        &&& self.datatype < self.max_tags
        &&& self.unionall < self.max_tags
        &&& self.uniontype < self.max_tags
        &&& self.tvar < self.max_tags
        &&& self.vararg < self.max_tags
        &&& self.symbol < self.max_tags
        &&& self.module < self.max_tags
        &&& self.simplevector < self.max_tags
        &&& self.string < self.max_tags
        &&& self.task < self.max_tags
    }

    /// Checks that the tags have entries in the table of types.
    pub fn is_well_formed(&self) -> (r: bool)
        ensures
            r == self.wf(),
    {
        let max: u64 = self.max_tags;
        max <= JL_MAX_TAGS && self.datatype < max && self.unionall < max && self.uniontype < max
            && self.tvar < max && self.vararg < max && self.symbol < max && self.module < max
            && self.simplevector < max && self.string < max && self.task < max
    }
}

/// Addresses of the types and type names that the scanner tells apart.
#[derive(Clone, Copy, PartialEq, Eq, Structural, Debug)]
pub struct KnownTypes {
    /// Where the runtime keeps its pointer to the type of types, or zero.
    pub datatype_type_addr: u64,
    pub symbol_type: u64,
    pub weakref_type: u64,
    pub task_type: u64,
    pub array_typename: u64,
    pub genericmemory_typename: u64,
    pub genericmemoryref_typename: u64,
}

/// What a header holds for a small tag: the tag, above the four status bits.
pub open spec fn tag_word(tag: u64) -> int {
    tag * 16
}

} // verus!
