//! What texts say: numbers that can be read back, and descriptions that hold what they describe.

use crate::datatypes::{datatype_of_tag, live_datatype, live_type_of_tag, typetag};
use crate::diagnostics::{
    bytes_to_zero, corruption_text, described_symbol, description, element_text, element_type,
    layout_facts, layout_text, memory_text, name_bytes, sample, sample_len, sample_word,
    symbol_text, tag_is_sound, type_name_with, typename_of_object, typename_text, ElementType,
};
use crate::heap::{HeapView, ObjectReference};
use crate::memory::{lemma_wrap_twice, wrap};
use crate::slots::{simple, JuliaVMSlot, OffsetSlot, TypeTagSlot};
use crate::text::{decimal, digit, digits, hex, lossy_text};
use vstd::prelude::*;

verus! {

/// The number that a digit stands for.
pub open spec fn value_of_digit(c: char) -> int {
    if '0' <= c <= '9' {
        c as int - '0' as int
    } else {
        c as int - 'a' as int + 10
    }
}

/// The number that digits stand for in a base, the last digit counting least.
pub open spec fn value_of(s: Seq<char>, base: int) -> int
    decreases s.len(),
{
    if s.len() == 0 {
        0
    } else {
        value_of(s.drop_last(), base) * base + value_of_digit(s.last())
    }
}

proof fn lemma_digit(d: int)
    requires
        0 <= d < 16,
    ensures
        value_of_digit(digit(d)) == d,
        digit(d) == '0' <==> d == 0,
{
    assert(digit(0) == '0' && digit(1) == '1' && digit(2) == '2' && digit(3) == '3');
    assert(digit(4) == '4' && digit(5) == '5' && digit(6) == '6' && digit(7) == '7');
    assert(digit(8) == '8' && digit(9) == '9' && digit(10) == 'a' && digit(11) == 'b');
    assert(digit(12) == 'c' && digit(13) == 'd' && digit(14) == 'e' && digit(15) == 'f');
}

/// The digits of a number stand for the number; they have no leading zero.
pub proof fn lemma_digits_stand_for_number(n: nat, base: nat)
    requires
        2 <= base <= 16,
    ensures
        value_of(digits(n, base), base as int) == n,
        digits(n, base).len() > 0,
        digits(n, base)[0] == '0' <==> n == 0,
        forall|i: int|
            0 <= i < digits(n, base).len() ==> 0 <= value_of_digit(#[trigger] digits(n, base)[i])
                < base,
    decreases n,
{
    let text = digits(n, base);
    if n < base {
        lemma_digit(n as int);
        assert(text == seq![digit(n as int)]);
        assert(text.drop_last() =~= Seq::<char>::empty());
        assert(value_of(text.drop_last(), base as int) == 0);
        assert(0 * (base as int) == 0) by (nonlinear_arith);
    } else {
        assert(n / base < n && n / base >= 1) by (nonlinear_arith)
            requires
                2 <= base <= n,
        ;
        lemma_digits_stand_for_number(n / base, base);
        vstd::arithmetic::div_mod::lemma_fundamental_div_mod(n as int, base as int);
        lemma_digit((n % base) as int);
        let head = digits(n / base, base);
        let last = digit((n % base) as int);
        assert(text == head.push(last));
        assert(text.drop_last() =~= head);
        let q = value_of(head, base as int);
        assert(q * (base as int) == base as int * q) by (nonlinear_arith);
        assert(value_of(text, base as int) == q * (base as int) + value_of_digit(last));
        assert forall|i: int| 0 <= i < text.len() implies 0 <= value_of_digit(#[trigger] text[i])
            < base by {
            if i < head.len() {
                assert(text[i] == head[i]);
            }
        }
    }
}

/// A number in hexadecimal begins with its mark, and the digits behind it stand for the number.
pub proof fn lemma_hex_text(n: int)
    requires
        0 <= n,
    ensures
        hex(n).len() > 2,
        hex(n)[0] == '0' && hex(n)[1] == 'x',
        value_of(hex(n).skip(2), 16) == n,
{
    reveal_strlit("0x");
    lemma_digits_stand_for_number(n as nat, 16);
    assert(hex(n).skip(2) =~= digits(n as nat, 16));
}

/// A number in decimal stands for itself, behind a sign if it is negative.
pub proof fn lemma_decimal_text(n: int)
    ensures
        n >= 0 ==> value_of(decimal(n), 10) == n,
        n < 0 ==> decimal(n)[0] == '-' && value_of(decimal(n).skip(1), 10) == -n,
{
    reveal_strlit("-");
    if n >= 0 {
        lemma_digits_stand_for_number(n as nat, 10);
    } else {
        lemma_digits_stand_for_number((-n) as nat, 10);
        assert(decimal(n).skip(1) =~= digits((-n) as nat, 10));
    }
}

/// A slot shows its address; one with an offset shows the offset behind it, a header and a captured
/// reference are marked as such.
pub proof fn lemma_shown_slots(a: u64, offset: u64)
    ensures
        simple(a).shown() == hex(a as int),
        JuliaVMSlot::Offset(OffsetSlot { slot_addr: a, offset }).shown() == hex(a as int) + seq![
            '+',
        ] + decimal(offset as int),
        JuliaVMSlot::TypeTag(TypeTagSlot { address: a }).shown() == seq![
            'T',
            'y',
            'p',
            'e',
            'T',
            'a',
            'g',
            '(',
        ] + hex(a as int) + seq![')'],
        JuliaVMSlot::Direct(ObjectReference { raw: a }).shown() == seq![
            'D',
            'i',
            'r',
            'e',
            'c',
            't',
            '(',
        ] + hex(a as int) + seq![')'],
{
    reveal_strlit("+");
    reveal_strlit(")");
    reveal_strlit("TypeTag(");
    reveal_strlit("Direct(");
    assert("+"@ =~= seq!['+']);
    assert(")"@ =~= seq![')']);
    assert("TypeTag("@ =~= seq!['T', 'y', 'p', 'e', 'T', 'a', 'g', '(']);
    assert("Direct("@ =~= seq!['D', 'i', 'r', 'e', 'c', 't', '(']);
}

proof fn lemma_bytes_of_name(h: HeapView, at: u64, n: nat, k: int)
    requires
        0 <= k,
    ensures
        bytes_to_zero(h, at, n).len() <= n,
        k < bytes_to_zero(h, at, n).len() ==> bytes_to_zero(h, at, n)[k] == h.byte(wrap(at + k))
            && h.byte(wrap(at + k)) != 0,
        bytes_to_zero(h, at, n).len() < n ==> h.byte(
            wrap(at + bytes_to_zero(h, at, n).len()),
        ) == 0,
    decreases n,
{
    let bytes = bytes_to_zero(h, at, n);
    assert(wrap(at + 0) == at);
    if n > 0 && h.byte(at) != 0 {
        let rest = bytes_to_zero(h, wrap(at + 1), (n - 1) as nat);
        lemma_bytes_of_name(h, wrap(at + 1), (n - 1) as nat, if k > 0 { k - 1 } else { 0 });
        lemma_wrap_twice(at + 1, rest.len() as int);
        assert(bytes == seq![h.byte(at)] + rest);
        if 0 < k < bytes.len() {
            assert(bytes[k] == rest[k - 1]);
            lemma_wrap_twice(at + 1, k - 1);
        }
    }
}

/// The name of a symbol is made of the bytes behind the fixed part of the symbol up to the first
/// zero, and of no more than 256.
pub proof fn lemma_symbol_name(h: HeapView, sym: u64, k: int)
    requires
        0 <= k,
    ensures
        ({
            let name = name_bytes(h, sym);
            let first = sym + h.config.abi.symbol_size;
            &&& name.len() <= 256
            &&& k < name.len() ==> name[k] == h.byte(wrap(first + k)) && name[k] != 0
            &&& name.len() < 256 ==> h.byte(wrap(first + name.len())) == 0
        }),
{
    let at = wrap(sym + h.config.abi.symbol_size);
    lemma_bytes_of_name(h, at, 256, k);
    lemma_wrap_twice(sym + h.config.abi.symbol_size, k);
    lemma_wrap_twice(sym + h.config.abi.symbol_size, name_bytes(h, sym).len() as int);
}

/// A symbol that is there is shown by its name; another is marked.
pub proof fn lemma_symbol_text(h: HeapView, sym: u64)
    ensures
        sym != 0 ==> symbol_text(h, sym) == lossy_text(name_bytes(h, sym)),
        sym == 0 ==> symbol_text(h, sym) == "<null-sym>"@,
{
}

/// The tag of an object is sound if it is small or leads to a small tag; another one is if and only
/// if the live copy of the type is managed, carries the tag of types and has no small tag of its
/// own.
pub proof fn lemma_sound_tags(h: HeapView, obj: u64)
    ensures
        ({
            let tag = typetag(h, obj);
            let live = live_datatype(h, tag);
            let f = h.config.abi.datatype_smalltag;
            let vt = datatype_of_tag(h, live);
            &&& tag < 1024 ==> tag_is_sound(h, obj)
            &&& tag >= 1024 && live < 1024 ==> tag_is_sound(h, obj)
            &&& tag >= 1024 && live >= 1024 ==> (tag_is_sound(h, obj) <==> {
                &&& h.is_mapped(live)
                &&& typetag(h, live) == 16 * h.config.tags.datatype
                &&& (h.half(wrap(vt + f.offset)) >> f.shift) & f.mask == 0
            })
        }),
{
}

/// The type name of an object is that of the live copy of its type, if its tag is a pointer to a
/// managed type.
pub proof fn lemma_typename_of_object(h: HeapView, obj: u64)
    ensures
        ({
            let tag = typetag(h, obj);
            let live = live_datatype(h, tag);
            let known = tag >= 1024 && h.is_mapped(live) && typetag(h, live) == 16
                * h.config.tags.datatype;
            &&& typename_of_object(h, obj) is Some <==> known
            &&& typename_of_object(h, obj) matches Some(tn) ==> tn == h.word(
                wrap(datatype_of_tag(h, live) + h.config.abi.datatype_name),
            )
        }),
{
}

/// The type of an object with a small tag is named by the tag; that of another by the symbol of its
/// type name, if it has one; an unsound tag has no name.
pub proof fn lemma_named_types(h: HeapView, obj: u64, symbol: Seq<char>)
    ensures
        ({
            let tag = typetag(h, obj);
            let name = type_name_with(h, obj, symbol);
            &&& tag < 1024 ==> name == "<smalltag "@ + hex(tag as int) + ">"@
            &&& tag >= 1024 && typename_of_object(h, obj) is None ==> name.len() == 0
            &&& tag >= 1024 && typename_of_object(h, obj) == Some(0u64) ==> name
                == "<null-typename>"@
            &&& tag >= 1024 && typename_of_object(h, obj) is Some && typename_of_object(h, obj)
                != Some(0u64) ==> name == symbol
        }),
{
}

/// The symbol of a type name is the word of it that the runtime keeps the symbol in.
pub proof fn lemma_typename_text(h: HeapView, tn: u64)
    ensures
        tn != 0 ==> typename_text(h, tn) == symbol_text(
            h,
            h.word(wrap(tn + h.config.abi.typename_name)),
        ),
        tn == 0 ==> typename_text(h, tn).len() == 0,
{
}

/// The element type of a generic memory is the second of its parameters, counted from the first
/// word behind the fixed part of the vector of parameters: a type with a name goes by that name,
/// anything else by its tag.
pub proof fn lemma_element_types(h: HeapView, vt: u64)
    ensures
        ({
            let params = h.word(wrap(vt + h.config.abi.datatype_parameters));
            let count = h.word(wrap(params + h.config.abi.svec_length));
            let elt = h.word(wrap(params + h.config.abi.svec_size + 8));
            let name = h.word(wrap(elt + h.config.abi.datatype_name));
            let there = params != 0 && count >= 2 && elt != 0;
            let typed = there && typetag(h, elt) == 16 * h.config.tags.datatype && name != 0;
            &&& element_type(h, vt) is NoParameters <==> params == 0
            &&& element_type(h, vt) is TooFewParameters <==> params != 0 && count < 2
            &&& element_type(h, vt) is Absent <==> params != 0 && count >= 2 && elt == 0
            &&& element_type(h, vt) is Named <==> typed
            &&& element_type(h, vt) is Other <==> there && !typed
            &&& element_type(h, vt) matches ElementType::Named(n) ==> n == name
            &&& element_type(h, vt) matches ElementType::Other(t) ==> t == typetag(h, elt)
        }),
{
    let params = h.word(wrap(vt + h.config.abi.datatype_parameters));
    lemma_wrap_twice(params + h.config.abi.svec_size, 8);
}

/// Whether a text has a part.
pub open spec fn has_part(text: Seq<char>, part: Seq<char>) -> bool {
    exists|i: int|
        0 <= i && i + part.len() <= text.len() && #[trigger] text.subrange(i, i + part.len())
            == part
}

proof fn lemma_part(before: Seq<char>, part: Seq<char>, after: Seq<char>)
    ensures
        has_part(before + part + after, part),
{
    let text = before + part + after;
    let i = before.len() as int;
    assert(text.subrange(i, i + part.len()) =~= part);
}

proof fn lemma_part_of_part(text: Seq<char>, middle: Seq<char>, part: Seq<char>)
    requires
        has_part(text, middle),
        has_part(middle, part),
    ensures
        has_part(text, part),
{
    let i = choose|i: int|
        0 <= i && i + middle.len() <= text.len() && #[trigger] text.subrange(i, i + middle.len())
            == middle;
    let j = choose|j: int|
        0 <= j && j + part.len() <= middle.len() && #[trigger] middle.subrange(j, j + part.len())
            == part;
    assert(text.subrange(i + j, i + j + part.len()) =~= part);
}

/// A description shows the words of a generic memory from its first on, twenty at the most.
pub proof fn lemma_shown_words(length: u64)
    ensures
        sample_len(length) <= 20,
        sample_len(length) <= length,
        sample_len(length) == 20 || sample_len(length) == length,
{
}

/// A word is shown with its index, as its value if it is managed and marked otherwise.
pub proof fn lemma_shown_word(h: HeapView, data: u64, i: int)
    requires
        data + 8 * i <= u64::MAX,
        0 <= i,
    ensures
        ({
            let a = (data + 8 * i) as u64;
            let shown = sample_word(h, data, i);
            &&& h.is_mapped(a) ==> shown == " ["@ + decimal(i) + ("]="@ + hex(h.word(a) as int))
            &&& !h.is_mapped(a) ==> shown == " ["@ + decimal(i) + "]=<unmapped>"@
        }),
{
    assert(wrap(data + 8 * i) == data + 8 * i);
}

/// Every word of a sample is shown in it.
pub proof fn lemma_sample_shows(h: HeapView, data: u64, n: int, i: int)
    requires
        0 <= i < n,
    ensures
        has_part(sample(h, data, 0, n), sample_word(h, data, i)),
    decreases n,
{
    let before = sample(h, data, 0, n - 1);
    let last = sample_word(h, data, n - 1);
    let text = sample(h, data, 0, n);
    if i == n - 1 {
        lemma_part(before, last, Seq::empty());
        assert(before + last + Seq::<char>::empty() =~= text);
    } else {
        lemma_sample_shows(h, data, n - 1, i);
        lemma_part(Seq::empty(), before, last);
        assert(Seq::<char>::empty() + before + last =~= text);
        lemma_part_of_part(text, before, sample_word(h, data, i));
    }
}

/// Samples of words that follow each other make one sample.
pub proof fn lemma_samples_join(h: HeapView, data: u64, lo: int, mid: int, hi: int)
    requires
        lo <= mid <= hi,
    ensures
        sample(h, data, lo, hi) == sample(h, data, lo, mid) + sample(h, data, mid, hi),
        sample(h, data, lo, lo).len() == 0,
        sample(h, data, lo, lo + 1) == sample_word(h, data, lo),
    decreases hi - mid,
{
    assert(sample(h, data, lo, lo) =~= Seq::<char>::empty());
    assert(sample(h, data, lo, lo + 1) =~= sample_word(h, data, lo));
    if mid < hi {
        lemma_samples_join(h, data, lo, mid, hi - 1);
        let a = sample(h, data, lo, mid);
        let b = sample(h, data, mid, hi - 1);
        let c = sample_word(h, data, hi - 1);
        assert(a + b + c =~= a + (b + c));
    } else {
        assert(sample(h, data, mid, hi) =~= Seq::<char>::empty());
        assert(sample(h, data, lo, mid) + Seq::<char>::empty() =~= sample(h, data, lo, mid));
    }
}

/// What is shown of a layout is what it records; minus one stands for a layout that is missing.
pub proof fn lemma_shown_layout(h: HeapView, layout: u64)
    ensures
        ({
            let abi = h.config.abi;
            let facts = layout_facts(h, layout);
            let boxed = abi.layout_arrayelem_isboxed;
            let union = abi.layout_arrayelem_isunion;
            let first = h.quad(wrap(layout + abi.layout_first_ptr));
            let pointers = h.quad(wrap(layout + abi.layout_npointers));
            &&& layout == 0 ==> facts == (-1int, -1int, -1int, -1int)
            &&& layout != 0 ==> {
                &&& facts.0 == (h.half(wrap(layout + boxed.offset)) >> boxed.shift) & boxed.mask
                &&& facts.1 == (h.half(wrap(layout + union.offset)) >> union.shift) & union.mask
                &&& facts.2 == first || facts.2 == first - 0x1_0000_0000
                &&& facts.3 == pointers || facts.3 == pointers - 0x1_0000_0000
                &&& -0x8000_0000 <= facts.2 < 0x8000_0000
                &&& -0x8000_0000 <= facts.3 < 0x8000_0000
            }
            &&& has_part(layout_text(h, layout), " isboxed="@ + decimal(facts.0))
            &&& has_part(layout_text(h, layout), " isunion="@ + decimal(facts.1))
            &&& has_part(layout_text(h, layout), " first_ptr="@ + decimal(facts.2))
            &&& has_part(layout_text(h, layout), " npointers="@ + decimal(facts.3))
        }),
{
    let facts = layout_facts(h, layout);
    let a = " isboxed="@ + decimal(facts.0);
    let b = " isunion="@ + decimal(facts.1);
    let c = " first_ptr="@ + decimal(facts.2);
    let d = " npointers="@ + decimal(facts.3);
    let text = layout_text(h, layout);
    let none = Seq::<char>::empty();
    assert(text =~= none + a + (b + c + d));
    assert(text =~= a + b + (c + d));
    assert(text =~= (a + b) + c + d);
    assert(text =~= (a + b + c) + d + none);
    lemma_part(none, a, b + c + d);
    lemma_part(a, b, c + d);
    lemma_part(a + b, c, d);
    lemma_part(a + b + c, d, none);
}

/// The description of a generic memory holds its element type and its type, how it holds its data,
/// its length, the place of its data, its layout, whether it starts out zeroed, and its sample.
#[verifier::rlimit(40)]
pub proof fn lemma_described_memory(h: HeapView, obj: u64, vt: u64, symbol: Seq<char>)
    ensures
        ({
            let abi = h.config.abi;
            let length = h.word(wrap(obj + abi.genericmemory_length));
            let data = h.word(wrap(obj + abi.genericmemory_ptr));
            let layout = h.word(wrap(vt + abi.datatype_layout));
            let zero = abi.datatype_zeroinit;
            let zeroed = (h.half(wrap(vt + zero.offset)) >> zero.shift) & zero.mask;
            let text = memory_text(h, obj, vt, symbol);
            let shown = if length < 20 {
                length as int
            } else {
                20
            };
            &&& has_part(
                text,
                "GenericMemory{"@ + element_text(element_type(h, vt), symbol) + "} vt="@ + hex(
                    vt as int,
                ),
            )
            &&& has_part(text, " how="@ + decimal(h.memory_kind(obj) as int))
            &&& has_part(text, " len="@ + decimal(length as int))
            &&& has_part(text, " dataptr="@ + hex(data as int))
            &&& has_part(text, layout_text(h, layout))
            &&& has_part(text, " zeroinit="@ + decimal(zeroed as int))
            &&& has_part(text, " data:["@ + sample(h, data, 0, shown) + " ]"@)
            &&& text.len() == 14 + element_text(element_type(h, vt), symbol).len() + 5 + hex(
                vt as int,
            ).len() + 5 + decimal(h.memory_kind(obj) as int).len() + 5 + decimal(
                length as int,
            ).len() + 9 + hex(data as int).len() + layout_text(h, layout).len() + 10 + decimal(
                zeroed as int,
            ).len() + 7 + sample(h, data, 0, shown).len() + 2
        }),
{
    reveal_strlit("GenericMemory{");
    reveal_strlit("} vt=");
    reveal_strlit(" how=");
    reveal_strlit(" len=");
    reveal_strlit(" dataptr=");
    reveal_strlit(" zeroinit=");
    reveal_strlit(" data:[");
    reveal_strlit(" ]");
    let abi = h.config.abi;
    let length = h.word(wrap(obj + abi.genericmemory_length));
    let data = h.word(wrap(obj + abi.genericmemory_ptr));
    let layout = h.word(wrap(vt + abi.datatype_layout));
    let zero = abi.datatype_zeroinit;
    let zeroed = (h.half(wrap(vt + zero.offset)) >> zero.shift) & zero.mask;
    let text = memory_text(h, obj, vt, symbol);
    let p1 = "GenericMemory{"@ + element_text(element_type(h, vt), symbol) + "} vt="@ + hex(
        vt as int,
    );
    let p2 = " how="@ + decimal(h.memory_kind(obj) as int);
    let p3 = " len="@ + decimal(length as int);
    let p4 = " dataptr="@ + hex(data as int);
    let p5 = layout_text(h, layout);
    let p6 = " zeroinit="@ + decimal(zeroed as int);
    let p7 = " data:["@ + sample(h, data, 0, sample_len(length)) + " ]"@;
    let none = Seq::<char>::empty();
    let r6 = p6 + p7;
    let r5 = p5 + r6;
    let r4 = p4 + r5;
    let r3 = p3 + r4;
    let r2 = p2 + r3;
    assert(text =~= p1 + r2);
    lemma_part(none, p1, r2);
    assert(none + p1 + r2 =~= text);
    lemma_part(p1, p2, r3);
    assert(p1 + p2 + r3 =~= text);
    lemma_part(p1 + p2, p3, r4);
    assert(p1 + p2 + p3 + r4 =~= text);
    lemma_part(p1 + p2 + p3, p4, r5);
    assert(p1 + p2 + p3 + p4 + r5 =~= text);
    lemma_part(p1 + p2 + p3 + p4, p5, r6);
    assert(p1 + p2 + p3 + p4 + p5 + r6 =~= text);
    lemma_part(p1 + p2 + p3 + p4 + p5, p6, p7);
    assert(p1 + p2 + p3 + p4 + p5 + p6 + p7 =~= text);
    lemma_part(p1 + p2 + p3 + p4 + p5 + p6, p7, none);
    assert(p1 + p2 + p3 + p4 + p5 + p6 + p7 + none =~= text);
}

/// The element type is shown by its symbol if it has a name, and marked otherwise.
pub proof fn lemma_shown_element(e: ElementType, symbol: Seq<char>)
    ensures
        e is Named ==> element_text(e, symbol) == symbol,
        e matches ElementType::Other(tag) ==> has_part(element_text(e, symbol), hex(tag as int)),
        e is NoParameters ==> element_text(e, symbol) == "<no-params>"@,
        e is TooFewParameters ==> element_text(e, symbol) == "<svec<2>"@,
        e is Absent ==> element_text(e, symbol) == "<null-elt>"@,
{
    if let ElementType::Other(tag) = e {
        lemma_part("<elt-tag="@, hex(tag as int), ">"@);
    }
}

/// An object is described by its type: a generic memory by all that is shown of one, any other
/// object by the symbol of its type, if it can be had, and the type itself; an object without a
/// type by its address.
pub proof fn lemma_described_object(h: HeapView, obj: u64, symbol: Seq<char>)
    ensures
        ({
            let vt = live_type_of_tag(h, typetag(h, obj));
            let memory = vt != 0 && h.word(wrap(vt + h.config.abi.datatype_name))
                == h.config.types.genericmemory_typename;
            let named = description(h, obj, Some(symbol));
            let nameless = description(h, obj, None);
            &&& vt == 0 ==> has_part(named, hex(obj as int)) && nameless == named
            &&& memory ==> named == memory_text(h, obj, vt, symbol)
            &&& memory ==> nameless == memory_text(h, obj, vt, Seq::empty())
            &&& vt != 0 && !memory ==> named == symbol + " vt="@ + hex(vt as int)
            &&& vt != 0 && !memory ==> nameless == "<invalid-typename>"@ + " vt="@ + hex(vt as int)
        }),
{
    lemma_part("<null-vt obj="@, hex(obj as int), ">"@);
}

/// The symbol that a description needs is that of the type name, for a generic memory that of the
/// type name of its elements; none is needed where there is none to be had.
pub proof fn lemma_needed_symbol(h: HeapView, vt: u64)
    requires
        vt != 0,
    ensures
        ({
            let abi = h.config.abi;
            let tn = h.word(wrap(vt + abi.datatype_name));
            let memory = tn == h.config.types.genericmemory_typename;
            let needed = described_symbol(h, vt);
            &&& !memory ==> (needed is Some <==> tn != 0 && h.is_mapped(tn))
            &&& !memory && needed is Some ==> needed == Some(h.word(wrap(tn + abi.typename_name)))
            &&& memory ==> (needed is Some <==> element_type(h, vt) is Named)
            &&& memory ==> (element_type(h, vt) matches ElementType::Named(n) ==> needed == Some(
                h.word(wrap(n + abi.typename_name)),
            ))
        }),
{
}

/// The warning about a corrupt object holds its tag and the status of what lies there.
pub proof fn lemma_warning(tag: u64, status: u8)
    ensures
        has_part(corruption_text(tag, status), ", vt = "@ + decimal(tag as int)),
        has_part(
            corruption_text(tag, status),
            ", forwarding_status = "@ + decimal(status as int),
        ),
{
    let text = corruption_text(tag, status);
    let lead = "GC warning (probable corruption ignored) - !jl_is_datatype = true, vt = "@;
    let middle = ", type_tag = 0, forwarding_status = "@;
    let t = decimal(tag as int);
    let s = decimal(status as int);
    reveal_strlit("GC warning (probable corruption ignored) - !jl_is_datatype = true, vt = ");
    reveal_strlit(", type_tag = 0, forwarding_status = ");
    reveal_strlit(", vt = ");
    reveal_strlit(", forwarding_status = ");
    let lead_end = lead.len() - 7;
    let middle_end = middle.len() - 22;
    assert(lead =~= lead.take(lead_end) + ", vt = "@);
    assert(middle =~= middle.take(middle_end) + ", forwarding_status = "@);
    let none = Seq::<char>::empty();
    lemma_part(lead.take(lead_end), ", vt = "@ + t, middle + s);
    assert(lead.take(lead_end) + (", vt = "@ + t) + (middle + s) =~= text);
    lemma_part(lead + t + middle.take(middle_end), ", forwarding_status = "@ + s, none);
    assert(lead + t + middle.take(middle_end) + (", forwarding_status = "@ + s) + none =~= text);
}

} // verus!
