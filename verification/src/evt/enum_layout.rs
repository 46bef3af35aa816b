//! The checks an event word enum's description must pass before its decode
//! can be written, in the order they are made.
//!
//! The description gives the word type, where the tag sits and, for each
//! variant in declaration order, the tags that select it and the attribute
//! of each of its fields. The word type is checked first, then the tag; then
//! the variants in declaration order, and within a variant its tags, its
//! shape and its fields in declaration order. The first check that fails is
//! the one reported; when none fails, the result is the layout that
//! `layout::layout_decode` decodes by.

use vstd::prelude::*;

use super::bitfield::{
    check_layout, field_fits, spec_check_layout, spec_word_type_bits, word_type_bits, LayoutError,
};
use super::layout::{layouts_view, VariantLayout};

verus! {

/// What the attribute of one named field gives.
#[derive(Debug, Clone, Copy, PartialEq, Eq, Structural)]
pub enum FieldAttr {
    /// The field has no `field` attribute.
    Missing,
    /// The field's attribute could not be read.
    Unreadable,
    /// The least significant bit and the width, where given.
    Given(Option<u32>, Option<u32>),
}

/// The fields of a variant.
pub enum VariantShape {
    /// Named fields, in declaration order.
    Named(Vec<FieldAttr>),
    /// No fields.
    Unit,
    /// Unnamed fields, which are not supported.
    Tuple,
}

/// One variant of the enum: the tags that select it and its fields.
pub struct VariantDesc {
    pub tags: Vec<u32>,
    pub shape: VariantShape,
}

/// Why a field was refused.
#[derive(Debug, Clone, Copy, PartialEq, Eq, Structural)]
pub enum FieldFault {
    Missing,
    Unreadable,
    Layout(LayoutError),
}

/// Why a variant was refused.
#[derive(Debug, Clone, Copy, PartialEq, Eq, Structural)]
pub enum VariantFault {
    /// It lists no tag.
    NoTag,
    /// Its fields are unnamed.
    Tuple,
    /// Its field at this index was refused.
    Field(usize, FieldFault),
}

/// Why the enum's description was refused.
#[derive(Debug, Clone, Copy, PartialEq, Eq, Structural)]
pub enum DeriveError {
    /// No word type is given.
    MissingWord,
    /// The word type is not `u16`, `u32` or `u64`.
    UnsupportedWord,
    /// The tag's description was refused.
    Tag(LayoutError),
    /// The variant at this index was refused.
    Variant(usize, VariantFault),
}

/// The layout of an accepted description.
pub struct EnumLayout {
    pub word_bits: u32,
    pub tag_lsb: u32,
    pub tag_width: u32,
    pub variants: Vec<VariantLayout>,
}

/// The verdict on one field's attribute.
pub open spec fn field_check(a: FieldAttr, word_bits: u32) -> Result<(u32, u32), FieldFault> {
    match a {
        FieldAttr::Missing => Err(FieldFault::Missing),
        FieldAttr::Unreadable => Err(FieldFault::Unreadable),
        FieldAttr::Given(lsb, width) => match spec_check_layout(lsb, width, word_bits) {
            Ok(f) => Ok(f),
            Err(e) => Err(FieldFault::Layout(e)),
        },
    }
}

/// The first field from `j` on that is refused, with its fault.
pub open spec fn first_field_fault(fields: Seq<FieldAttr>, word_bits: u32, j: int) -> Option<
    (int, FieldFault),
>
    decreases fields.len() - j,
{
    if j < 0 || j >= fields.len() {
        None
    } else {
        match field_check(fields[j], word_bits) {
            Err(e) => Some((j, e)),
            Ok(_) => first_field_fault(fields, word_bits, j + 1),
        }
    }
}

/// The verdict on one variant: its tags first, then its shape, then its
/// fields in order.
pub open spec fn variant_fault(v: VariantDesc, word_bits: u32) -> Option<VariantFault> {
    if v.tags@.len() == 0 {
        Some(VariantFault::NoTag)
    } else {
        match v.shape {
            VariantShape::Unit => None,
            VariantShape::Tuple => Some(VariantFault::Tuple),
            VariantShape::Named(fields) => match first_field_fault(fields@, word_bits, 0) {
                Some((j, e)) => Some(VariantFault::Field(j as usize, e)),
                None => None,
            },
        }
    }
}

/// The first variant from `i` on that is refused, with its fault.
pub open spec fn first_variant_fault(variants: Seq<VariantDesc>, word_bits: u32, i: int) -> Option<
    (int, VariantFault),
>
    decreases variants.len() - i,
{
    if i < 0 || i >= variants.len() {
        None
    } else {
        match variant_fault(variants[i], word_bits) {
            Some(f) => Some((i, f)),
            None => first_variant_fault(variants, word_bits, i + 1),
        }
    }
}

/// The verdict on a whole description: the word type, then the tag, then
/// the variants in order. On success, the word's width and the tag's
/// `(lsb, width)`.
pub open spec fn spec_check_enum(
    word_type: Option<Seq<u8>>,
    tag_lsb: Option<u32>,
    tag_width: Option<u32>,
    variants: Seq<VariantDesc>,
) -> Result<(u32, u32, u32), DeriveError> {
    match word_type {
        None => Err(DeriveError::MissingWord),
        Some(name) => match spec_word_type_bits(name) {
            None => Err(DeriveError::UnsupportedWord),
            Some(bits) => match spec_check_layout(tag_lsb, tag_width, bits) {
                Err(e) => Err(DeriveError::Tag(e)),
                Ok((lsb, width)) => match first_variant_fault(variants, bits, 0) {
                    Some((i, f)) => Err(DeriveError::Variant(i as usize, f)),
                    None => Ok((bits, lsb, width)),
                },
            },
        },
    }
}

/// The `(lsb, width)` an accepted field attribute gives.
pub open spec fn field_layout(a: FieldAttr) -> (u32, u32) {
    match a {
        FieldAttr::Given(Some(lsb), Some(width)) => (lsb, width),
        _ => (0, 0),
    }
}

/// The layout of an accepted variant: its tags and its fields' layouts.
pub open spec fn variant_layout(v: VariantDesc) -> (Seq<u32>, Seq<(u32, u32)>) {
    match v.shape {
        VariantShape::Named(fields) => (v.tags@, fields@.map_values(|a: FieldAttr| field_layout(a))),
        _ => (v.tags@, Seq::empty()),
    }
}

/// Checks one field's attribute.
fn check_field(a: FieldAttr, word_bits: u32) -> (r: Result<(u32, u32), FieldFault>)
    ensures
        r == field_check(a, word_bits),
        r matches Ok(f) ==> f == field_layout(a) && field_fits(f.0, f.1, word_bits),
{
    match a {
        FieldAttr::Missing => Err(FieldFault::Missing),
        FieldAttr::Unreadable => Err(FieldFault::Unreadable),
        FieldAttr::Given(lsb, width) => match check_layout(lsb, width, word_bits) {
            Ok(f) => Ok(f),
            Err(e) => Err(FieldFault::Layout(e)),
        },
    }
}

/// Checks one variant; on success, the layouts of its fields.
fn check_variant(v: &VariantDesc, word_bits: u32) -> (r: Result<Vec<(u32, u32)>, VariantFault>)
    ensures
        match r {
            Ok(fields) => variant_fault(*v, word_bits) is None && fields@ == variant_layout(*v).1
                && forall|j: int|
                0 <= j < fields@.len() ==> field_fits(
                    #[trigger] fields@[j].0,
                    fields@[j].1,
                    word_bits,
                ),
            Err(f) => variant_fault(*v, word_bits) == Some(f),
        },
{
    if v.tags.len() == 0 {
        return Err(VariantFault::NoTag);
    }
    match &v.shape {
        VariantShape::Unit => Ok(Vec::new()),
        VariantShape::Tuple => Err(VariantFault::Tuple),
        VariantShape::Named(attrs) => {
            let mut out: Vec<(u32, u32)> = Vec::new();
            let mut j: usize = 0;
            while j < attrs.len()
                invariant
                    j <= attrs@.len(),
                    v.tags@.len() > 0,
                    v.shape == VariantShape::Named(*attrs),
                    first_field_fault(attrs@, word_bits, 0) == first_field_fault(
                        attrs@,
                        word_bits,
                        j as int,
                    ),
                    out@.len() == j,
                    forall|k: int|
                        0 <= k < j ==> #[trigger] out@[k] == field_layout(attrs@[k]) && field_fits(
                            out@[k].0,
                            out@[k].1,
                            word_bits,
                        ),
                decreases attrs@.len() - j,
            {
                match check_field(attrs[j], word_bits) {
                    Ok(f) => {
                        out.push(f);
                    },
                    Err(e) => {
                        assert(first_field_fault(attrs@, word_bits, j as int) == Some((j as int, e)));
                        return Err(VariantFault::Field(j, e));
                    },
                }
                j = j + 1;
            }
            assert(out@ =~= attrs@.map_values(|a: FieldAttr| field_layout(a)));
            Ok(out)
        },
    }
}

/// The bytes of a word type's name, if one is given.
pub open spec fn word_type_view(word_type: Option<&[u8]>) -> Option<Seq<u8>> {
    match word_type {
        Some(n) => Some(n@),
        None => None,
    }
}

/// Checks an enum's description in order: the word type (`None` when none
/// is given), the tag, then each variant in declaration order. The first
/// check that fails is returned; otherwise the layout the decode reads by,
/// with every field inside a 64-bit word.
pub fn check_enum_layout(
    word_type: Option<&[u8]>,
    tag_lsb: Option<u32>,
    tag_width: Option<u32>,
    variants: &[VariantDesc],
) -> (r: Result<EnumLayout, DeriveError>)
    ensures
        r is Ok <==> description_accepted(word_type_view(word_type), tag_lsb, tag_width, variants@),
        r matches Ok(l) ==> l.word_bits == named_word_bits(word_type_view(word_type)),
        match r {
            Ok(l) => {
                &&& spec_check_enum(word_type_view(word_type), tag_lsb, tag_width, variants@) == Ok::<(u32, u32, u32), DeriveError>((l.word_bits, l.tag_lsb, l.tag_width))
                &&& layouts_view(l.variants@) == variants@.map_values(
                    |v: VariantDesc| variant_layout(v),
                )
                &&& field_fits(l.tag_lsb, l.tag_width, 64)
                &&& forall|i: int, j: int|
                    0 <= i < l.variants@.len() && 0 <= j < l.variants@[i].fields@.len()
                        ==> field_fits(
                        #[trigger] l.variants@[i].fields@[j].0,
                        l.variants@[i].fields@[j].1,
                        64,
                    )
            },
            Err(e) => spec_check_enum(word_type_view(word_type), tag_lsb, tag_width, variants@)
                == Err::<(u32, u32, u32), DeriveError>(e),
        },
{
    proof {
        lemma_enum_acceptance(word_type_view(word_type), tag_lsb, tag_width, variants@);
    }
    let name = match word_type {
        Some(n) => n,
        None => return Err(DeriveError::MissingWord),
    };
    let bits = match word_type_bits(name) {
        Some(b) => b,
        None => return Err(DeriveError::UnsupportedWord),
    };
    let (lsb, width) = match check_layout(tag_lsb, tag_width, bits) {
        Ok(t) => t,
        Err(e) => return Err(DeriveError::Tag(e)),
    };
    assert(bits <= 64);
    let mut out: Vec<VariantLayout> = Vec::new();
    let mut i: usize = 0;
    while i < variants.len()
        invariant
            i <= variants@.len(),
            bits <= 64,
            word_type == Some(name),
            spec_word_type_bits(name@) == Some(bits),
            spec_check_layout(tag_lsb, tag_width, bits) == Ok::<(u32, u32), LayoutError>((lsb, width)),
            first_variant_fault(variants@, bits, 0) == first_variant_fault(
                variants@,
                bits,
                i as int,
            ),
            out@.len() == i,
            forall|k: int|
                0 <= k < i ==> (#[trigger] out@[k]).tags@ == variant_layout(variants@[k]).0
                    && out@[k].fields@ == variant_layout(variants@[k]).1,
            forall|a: int, b: int|
                0 <= a < out@.len() && 0 <= b < out@[a].fields@.len() ==> field_fits(
                    #[trigger] out@[a].fields@[b].0,
                    out@[a].fields@[b].1,
                    64,
                ),
        decreases variants@.len() - i,
    {
        let v = &variants[i];
        match check_variant(v, bits) {
            Ok(fields) => {
                let tags = v.tags.clone();
                out.push(VariantLayout { tags, fields });
            },
            Err(f) => {
                assert(first_variant_fault(variants@, bits, i as int) == Some((i as int, f)));
                proof {
                    lemma_enum_acceptance(word_type_view(word_type), tag_lsb, tag_width, variants@);
                }
                return Err(DeriveError::Variant(i, f));
            },
        }
        i = i + 1;
    }
    assert(layouts_view(out@) =~= variants@.map_values(|v: VariantDesc| variant_layout(v)));
    Ok(EnumLayout { word_bits: bits, tag_lsb: lsb, tag_width: width, variants: out })
}

/// The width in bits of the word type named `name`: 16 for `u16`, 32 for
/// `u32`, 64 for `u64`, and 0 for any other name or none.
pub open spec fn named_word_bits(word_type: Option<Seq<u8>>) -> int {
    if word_type == Some(seq![0x75u8, 0x31, 0x36]) {
        16
    } else if word_type == Some(seq![0x75u8, 0x33, 0x32]) {
        32
    } else if word_type == Some(seq![0x75u8, 0x36, 0x34]) {
        64
    } else {
        0
    }
}

/// A field attribute that gives both its least significant bit and its
/// width, with a width that is not zero and a field that ends at or below
/// the top of a word of `bits` bits.
pub open spec fn inside_word(a: FieldAttr, bits: int) -> bool {
    a matches FieldAttr::Given(Some(lsb), Some(width)) && 0 < width && lsb + width <= bits
}

/// A variant that lists a tag, has no unnamed fields, and whose named fields
/// all lie inside a word of `bits` bits.
pub open spec fn variant_accepted(v: VariantDesc, bits: int) -> bool {
    &&& v.tags@.len() > 0
    &&& !(v.shape is Tuple)
    &&& v.shape matches VariantShape::Named(fields) ==> forall|j: int|
        0 <= j < fields@.len() ==> inside_word(#[trigger] fields@[j], bits)
}

/// A description whose word type is `u16`, `u32` or `u64`, whose tag lies
/// inside that word, and whose variants are all accepted for that word.
pub open spec fn description_accepted(
    word_type: Option<Seq<u8>>,
    tag_lsb: Option<u32>,
    tag_width: Option<u32>,
    variants: Seq<VariantDesc>,
) -> bool {
    let bits = named_word_bits(word_type);
    &&& bits > 0
    &&& tag_lsb matches Some(lsb) && tag_width matches Some(width) && 0 < width && lsb + width
        <= bits
    &&& forall|i: int| 0 <= i < variants.len() ==> variant_accepted(#[trigger] variants[i], bits)
}

proof fn lemma_field_accepted(a: FieldAttr, bits: u32)
    ensures
        field_check(a, bits) is Ok <==> inside_word(a, bits as int),
{
}

proof fn lemma_fields_accepted(fields: Seq<FieldAttr>, bits: u32, j: int)
    requires
        0 <= j <= fields.len(),
    ensures
        first_field_fault(fields, bits, j) is None <==> forall|k: int|
            j <= k < fields.len() ==> inside_word(#[trigger] fields[k], bits as int),
    decreases fields.len() - j,
{
    if j < fields.len() {
        lemma_field_accepted(fields[j], bits);
        lemma_fields_accepted(fields, bits, j + 1);
    }
}

proof fn lemma_variant_accepted(v: VariantDesc, bits: u32)
    ensures
        variant_fault(v, bits) is None <==> variant_accepted(v, bits as int),
{
    if let VariantShape::Named(fields) = v.shape {
        lemma_fields_accepted(fields@, bits, 0);
    }
}

proof fn lemma_variants_accepted(variants: Seq<VariantDesc>, bits: u32, i: int)
    requires
        0 <= i <= variants.len(),
    ensures
        first_variant_fault(variants, bits, i) is None <==> forall|k: int|
            i <= k < variants.len() ==> variant_accepted(#[trigger] variants[k], bits as int),
    decreases variants.len() - i,
{
    if i < variants.len() {
        lemma_variant_accepted(variants[i], bits);
        lemma_variants_accepted(variants, bits, i + 1);
    }
}

/// Which descriptions are accepted: exactly those whose word type is `u16`,
/// `u32` or `u64`, whose tag gives both parts and lies inside a word of that
/// width, and whose variants each list a tag, have no unnamed fields, and
/// give every named field both parts with a non-zero width and an end at or
/// below the top of that same word. An accepted description reports that
/// width and its tag's `(lsb, width)`.
pub proof fn lemma_enum_acceptance(
    word_type: Option<Seq<u8>>,
    tag_lsb: Option<u32>,
    tag_width: Option<u32>,
    variants: Seq<VariantDesc>,
)
    ensures
        spec_check_enum(word_type, tag_lsb, tag_width, variants) is Ok <==> description_accepted(
            word_type,
            tag_lsb,
            tag_width,
            variants,
        ),
        spec_check_enum(word_type, tag_lsb, tag_width, variants) matches Ok((bits, lsb, width))
            ==> bits == named_word_bits(word_type) && tag_lsb == Some(lsb) && tag_width == Some(
            width,
        ),
{
    if let Some(name) = word_type {
        if let Some(bits) = spec_word_type_bits(name) {
            lemma_variants_accepted(variants, bits, 0);
        }
    }
}

} // verus!
