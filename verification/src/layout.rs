//! A data layout: the software half of a target's ABI, that is byte order, the
//! size and alignment of each data type, and the stack alignment.
//!
//! A layout is a `data_layout` dictionary. Every size and alignment is expressed
//! in bits, matching the width of an integer type. Type entries key on the
//! type's layout class rather than its full spelling: `i{width}` for integers,
//! the mnemonic (`f32`, `bf16`) for floats and `p` for pointers. Lookup is by
//! exact key: a type whose class is not declared has no layout, rather than
//! borrowing a wider entry's.
use vstd::prelude::*;
use crate::attributes::dict_lookup;
use crate::attributes::entry_view;
use crate::attributes::entry_views;
use crate::attributes::neighbours_make_order;
use crate::attributes::overridden;
use crate::attributes::set_entry_is_read_back;
use crate::attributes::with_entry;
use crate::attributes::AttrView;
use crate::attributes::AttributeDict;
use crate::attributes::AttributeValue;
use crate::attributes::DictEntry;
use crate::context::Context;
use crate::context::ContextView;
use crate::error::first_failure;
use crate::error::first_failure_stays;
use crate::error::invalid;
use crate::error::verdict;
use crate::error::Error;
use crate::ids::OpId;
use crate::ids::TypeId;
use crate::text::cat2;
use crate::text::cat3;
use crate::text::cat5;
use crate::text::decimal;
use crate::text::decimal_string;
use crate::text::same;
use crate::text::text_less;
use crate::ty::float_bits;
use crate::ty::type_body;
use crate::ty::Type;
use crate::ty::TypeView;

verus! {

/// The attribute a data layout spec is carried in.
pub const DATA_LAYOUT: &'static str = "data_layout";

/// The order the bytes of a number are stored in.
#[derive(Debug, Clone, Copy, PartialEq, Eq, Structural)]
pub enum Endianness {
    Little,
    Big,
}

/// A data layout.
#[derive(Debug)]
pub struct DataLayout {
    entries: AttributeDict,
}

impl View for DataLayout {
    type V = Seq<(Seq<char>, AttrView)>;

    closed spec fn view(&self) -> Seq<(Seq<char>, AttrView)> {
        self.entries@
    }
}

/// A bit count, which may be written as a signed number.
pub open spec fn bit_count(value: Option<AttrView>) -> Option<u32> {
    match value {
        Some(AttrView::Int(n)) => if 0 <= n <= u32::MAX {
            Some(n as u32)
        } else {
            None
        },
        Some(AttrView::UInt(n)) => if n <= u32::MAX {
            Some(n as u32)
        } else {
            None
        },
        _ => None,
    }
}

fn bits(value: Option<&AttributeValue>) -> (r: Option<u32>)
    ensures
        r == bit_count(
            match value {
                Some(v) => Some(v@),
                None => None,
            },
        ),
{
    match value {
        Some(AttributeValue::Int(n)) => if 0 <= *n && *n <= u32::MAX as i64 {
            Some(*n as u32)
        } else {
            None
        },
        Some(AttributeValue::UInt(n)) => if *n <= u32::MAX as u64 {
            Some(*n as u32)
        } else {
            None
        },
        _ => None,
    }
}

/// What a layout says of the class `key`.
pub open spec fn type_entry(
    layout: Seq<(Seq<char>, AttrView)>,
    key: Seq<char>,
) -> Option<Seq<(Seq<char>, AttrView)>> {
    match dict_lookup(layout, "types"@) {
        Some(AttrView::Dict(types)) => match dict_lookup(types, key) {
            Some(AttrView::Dict(entry)) => Some(entry),
            _ => None,
        },
        _ => None,
    }
}

/// The size and the ABI alignment of a layout class.
pub open spec fn class_layout_of(
    layout: Seq<(Seq<char>, AttrView)>,
    class: Seq<char>,
) -> Option<(u32, u32)> {
    match type_entry(layout, class) {
        Some(entry) => match (
            bit_count(dict_lookup(entry, "size"@)),
            bit_count(dict_lookup(entry, "abi"@)),
        ) {
            (Some(size), Some(abi)) => Some((size, abi)),
            _ => None,
        },
        None => None,
    }
}

impl ContextView {
    /// The key describing the layout class of a type, or `None` for a type whose
    /// layout a spec cannot express (an aggregate, say).
    pub open spec fn layout_key(self, ty: TypeId) -> Option<Seq<char>> {
        match self.types[ty.0 as int] {
            TypeView::Integer(width) => Some("i"@ + decimal(width as nat)),
            TypeView::Float(_, _) => Some(type_body(self.types, ty)),
            TypeView::Ptr(_) => Some("p"@),
            _ => None,
        }
    }

    /// How many bits a value of a type takes by itself.
    pub open spec fn natural_width(self, ty: TypeId) -> Option<nat> {
        match self.types[ty.0 as int] {
            TypeView::Integer(width) => Some(width as nat),
            TypeView::Float(exponent, mantissa) => Some(float_bits(exponent, mantissa)),
            _ => None,
        }
    }
}

/// The key describing the layout class of a type.
pub fn layout_key(context: &Context, ty: TypeId) -> (r: Option<String>)
    requires
        context.inv(),
        ty.0 < context@.types.len(),
    ensures
        match r {
            Some(key) => context@.layout_key(ty) == Some(key@),
            None => context@.layout_key(ty) is None,
        },
{
    match context.get_type_data(ty) {
        Type::Integer(t) => Some(cat2("i", decimal_string(t.width() as u64).as_str())),
        Type::Float(_) => Some(context.type_body_text(ty)),
        Type::Ptr(_) => Some("p".to_owned()),
        _ => None,
    }
}

/// How many bits a value of a type takes by itself.
pub fn natural_width(context: &Context, ty: TypeId) -> (r: Option<u64>)
    requires
        context.inv(),
        ty.0 < context@.types.len(),
    ensures
        match r {
            Some(n) => context@.natural_width(ty) == Some(n as nat),
            None => context@.natural_width(ty) is None,
        },
{
    match context.get_type_data(ty) {
        Type::Integer(t) => Some(t.width() as u64),
        Type::Float(t) => Some(t.bit_width()),
        _ => None,
    }
}

impl DataLayout {
    /// A layout read from a spec that is not attached to the IR: a target's
    /// default, which applies where the IR itself declares nothing.
    pub fn from_value(value: &AttributeValue) -> (r: Option<Self>)
        ensures
            match r {
                Some(layout) => value@ == AttrView::Dict(layout@),
                None => !(value@ is Dict),
            },
    {
        match value.copy() {
            AttributeValue::Dict(entries) => Some(DataLayout { entries }),
            _ => None,
        }
    }

    /// The layout in scope at `op`: `scoped`, which is what the scopes around it
    /// declare, or else the dict the operation carries itself. An operation with no
    /// home in the IR belongs to no scope, so the layout resolved where the code came
    /// from rides along as its own attribute.
    pub fn for_instance(context: &Context, op: OpId, scoped: Option<DataLayout>) -> (r: Option<Self>)
        requires
            context.inv(),
        ensures
            match scoped {
                Some(layout) => r == Some(layout),
                None => match context@.attr(op, DATA_LAYOUT@) {
                    Some(AttrView::Dict(entries)) => r is Some && r->0@ == entries,
                    _ => r is None,
                },
            },
    {
        match scoped {
            Some(layout) => Some(layout),
            None => match context.with_attr(op, DATA_LAYOUT) {
                Some(value) => DataLayout::from_value(value),
                None => None,
            },
        }
    }

    /// The layout `scoped` declares over `default`: the target's own spec acts as the
    /// outermost scope, so entries of the IR override it key by key, each taken whole,
    /// while entries the IR never mentions keep the target's value.
    pub fn for_op_with_default(
        scoped: Option<DataLayout>,
        default: Option<&AttributeValue>,
    ) -> (r: Option<Self>)
        ensures
            match default {
                Some(AttributeValue::Dict(base)) => r is Some && r->0@ == match scoped {
                    Some(layout) => overridden(base@, layout@, layout@.len() as int),
                    None => base@,
                },
                _ => r == scoped,
            },
    {
        match default {
            Some(AttributeValue::Dict(base)) => {
                let entries = base.copy();
                match scoped {
                    Some(layout) => Some(
                        DataLayout { entries: entries.overridden_by(&layout.entries) },
                    ),
                    None => Some(DataLayout { entries }),
                }
            },
            _ => scoped,
        }
    }

    /// The order the bytes of a number are stored in.
    pub fn endianness(&self) -> (r: Option<Endianness>)
        ensures
            r == match dict_lookup(self@, "endianness"@) {
                Some(AttrView::Str(order)) => if order == "little"@ {
                    Some(Endianness::Little)
                } else if order == "big"@ {
                    Some(Endianness::Big)
                } else {
                    None
                },
                _ => None,
            },
    {
        match self.entries.get("endianness") {
            Some(AttributeValue::Str(order)) => {
                if same(order.as_str(), "little") {
                    Some(Endianness::Little)
                } else if same(order.as_str(), "big") {
                    Some(Endianness::Big)
                } else {
                    None
                }
            },
            _ => None,
        }
    }

    /// Alignment the stack pointer is kept at, in bits.
    pub fn stack_alignment(&self) -> (r: Option<u32>)
        ensures
            r == bit_count(dict_lookup(self@, "stack_alignment"@)),
    {
        bits(self.entries.get("stack_alignment"))
    }

    /// Bytes a cache line holds, which is what a locality model counts in.
    pub fn cache_line(&self) -> (r: Option<u32>)
        ensures
            r == bit_count(dict_lookup(self@, "cache_line"@)),
    {
        bits(self.entries.get("cache_line"))
    }

    /// Width of a pointer, in bits.
    pub fn pointer_size(&self) -> (r: Option<u32>)
        ensures
            r == match class_layout_of(self@, "p"@) {
                Some(entry) => Some(entry.0),
                None => None,
            },
    {
        match self.class_layout("p") {
            Some((size, _abi)) => Some(size),
            None => None,
        }
    }

    /// Width of an index, in bits: that of a pointer.
    pub open spec fn index_bits(&self) -> Option<u32> {
        match class_layout_of(self@, "p"@) {
            Some(entry) => Some(entry.0),
            None => None,
        }
    }

    /// Width of an index, in bits. An index addresses memory, so it is as wide
    /// as a pointer.
    pub fn index_width(&self) -> (r: Option<u32>)
        ensures
            r == self.index_bits(),
    {
        self.pointer_size()
    }

    /// Size and ABI alignment of a layout class named directly (`i32`, `f64`,
    /// `p`), in bits. For front ends, which map their own types onto a class
    /// before they hold a type to key on.
    pub fn class_layout(&self, class: &str) -> (r: Option<(u32, u32)>)
        ensures
            r == class_layout_of(self@, class@),
    {
        match self.type_entry(class) {
            Some(entry) => {
                let size = bits(entry.get("size"));
                let abi = bits(entry.get("abi"));
                match (size, abi) {
                    (Some(size), Some(abi)) => Some((size, abi)),
                    _ => None,
                }
            },
            None => None,
        }
    }

    /// Width of `ty` in bits: the declared `size` of its layout class, falling
    /// back to the type's own width where it has one.
    pub fn size_in_bits(&self, context: &Context, ty: TypeId) -> (r: Option<u64>)
        requires
            context.inv(),
            ty.0 < context@.types.len(),
        ensures
            ({
                let declared = match context@.layout_key(ty) {
                    Some(key) => match type_entry(self@, key) {
                        Some(entry) => bit_count(dict_lookup(entry, "size"@)),
                        None => None,
                    },
                    None => None,
                };
                match declared {
                    Some(size) => r == Some(size as u64),
                    None => match context@.layout_key(ty) {
                        Some(_) => match (r, context@.natural_width(ty)) {
                            (Some(n), Some(width)) => n == width,
                            (None, None) => true,
                            _ => false,
                        },
                        None => r is None,
                    },
                }
            }),
    {
        let key = match layout_key(context, ty) {
            Some(key) => key,
            None => {
                return None;
            },
        };
        if let Some(entry) = self.type_entry(key.as_str()) {
            if let Some(size) = bits(entry.get("size")) {
                return Some(size as u64);
            }
        }
        natural_width(context, ty)
    }

    /// Alignment `ty` must be given to satisfy the ABI, in bits.
    pub fn abi_alignment(&self, context: &Context, ty: TypeId) -> (r: Option<u32>)
        requires
            context.inv(),
            ty.0 < context@.types.len(),
        ensures
            r == match context@.layout_key(ty) {
                Some(key) => match type_entry(self@, key) {
                    Some(entry) => bit_count(dict_lookup(entry, "abi"@)),
                    None => None,
                },
                None => None,
            },
    {
        let key = match layout_key(context, ty) {
            Some(key) => key,
            None => {
                return None;
            },
        };
        match self.type_entry(key.as_str()) {
            Some(entry) => bits(entry.get("abi")),
            None => None,
        }
    }

    /// Alignment `ty` is given when nothing constrains it, in bits. Defaults to
    /// the ABI alignment.
    pub fn preferred_alignment(&self, context: &Context, ty: TypeId) -> (r: Option<u32>)
        requires
            context.inv(),
            ty.0 < context@.types.len(),
        ensures
            r == match context@.layout_key(ty) {
                Some(key) => match type_entry(self@, key) {
                    Some(entry) => match bit_count(dict_lookup(entry, "preferred"@)) {
                        Some(n) => Some(n),
                        None => bit_count(dict_lookup(entry, "abi"@)),
                    },
                    None => None,
                },
                None => None,
            },
    {
        let key = match layout_key(context, ty) {
            Some(key) => key,
            None => {
                return None;
            },
        };
        match self.type_entry(key.as_str()) {
            Some(entry) => match bits(entry.get("preferred")) {
                Some(n) => Some(n),
                None => bits(entry.get("abi")),
            },
            None => None,
        }
    }

    /// A spec entry outside the predefined set, for metadata a dialect defines
    /// itself (e.g. a GPU address-space mapping).
    pub fn get(&self, key: &str) -> (r: Option<&AttributeValue>)
        ensures
            match r {
                Some(value) => dict_lookup(self@, key@) == Some(value@),
                None => dict_lookup(self@, key@) is None,
            },
    {
        self.entries.get(key)
    }

    fn type_entry(&self, key: &str) -> (r: Option<&AttributeDict>)
        ensures
            match r {
                Some(entry) => type_entry(self@, key@) == Some(entry@),
                None => type_entry(self@, key@) is None,
            },
    {
        match self.entries.get("types") {
            Some(AttributeValue::Dict(types)) => match types.get(key) {
                Some(AttributeValue::Dict(entry)) => Some(entry),
                _ => None,
            },
            _ => None,
        }
    }
}

/// The entry of a layout class of this size and ABI alignment.
pub open spec fn class_spec(size: u32, abi: u32) -> AttrView {
    AttrView::Dict(
        seq![("abi"@, AttrView::UInt(abi as nat)), ("size"@, AttrView::UInt(size as nat))],
    )
}

/// The entries of the first `n` of `types`.
pub open spec fn class_specs(types: Seq<(&str, u32, u32)>, n: int) -> Seq<(Seq<char>, AttrView)>
    decreases n,
{
    if n <= 0 {
        Seq::empty()
    } else {
        with_entry(
            class_specs(types, n - 1),
            types[n - 1].0@,
            class_spec(types[n - 1].1, types[n - 1].2),
        )
    }
}

/// A layout with these entries.
pub open spec fn layout_spec(
    endianness: Endianness,
    stack_alignment: u32,
    types: Seq<(&str, u32, u32)>,
) -> AttrView {
    AttrView::Dict(
        seq![
            ("cache_line"@, AttrView::UInt(64)),
            (
                "endianness"@,
                AttrView::Str(
                    if endianness == Endianness::Little {
                        "little"@
                    } else {
                        "big"@
                    },
                ),
            ),
            ("stack_alignment"@, AttrView::UInt(stack_alignment as nat)),
            ("types"@, AttrView::Dict(class_specs(types, types.len() as int))),
        ],
    )
}

fn numbered(key: &str, value: u64) -> (e: DictEntry)
    ensures
        entry_view(e) == (key@, AttrView::UInt(value as nat)),
{
    DictEntry { key: key.to_owned(), value: AttributeValue::UInt(value) }
}

/// Builds a layout spec, the form a target describes its own ABI in. `types`
/// gives each layout class its size and ABI alignment in bits.
pub fn data_layout_spec(
    endianness: Endianness,
    stack_alignment: u32,
    types: &[(&str, u32, u32)],
) -> (r: AttributeValue)
    ensures
        r@ == layout_spec(endianness, stack_alignment, types@),
{
    let order = match endianness {
        Endianness::Little => "little",
        Endianness::Big => "big",
    };
    let mut classes = AttributeDict::new();
    let n: usize = types.len();
    let mut i: usize = 0;
    while i < n
        invariant
            i <= n,
            n == types@.len(),
            classes@ == class_specs(types@, i as int),
        decreases n - i,
    {
        let (name, size, abi) = types[i];
        let mut entry: Vec<DictEntry> = Vec::new();
        entry.push(numbered("abi", abi as u64));
        entry.push(numbered("size", size as u64));
        proof {
            assert(entry_views(entry@) =~= class_spec(size, abi)->Dict_0);
            layout_keys_rise();
            neighbours_make_order(entry_views(entry@));
        }
        classes = classes.with(name, AttributeValue::Dict(AttributeDict::from_sorted(entry)));
        i += 1;
    }
    let mut entries: Vec<DictEntry> = Vec::new();
    entries.push(numbered("cache_line", 64));
    entries.push(
        DictEntry {
            key: "endianness".to_owned(),
            value: AttributeValue::Str(order.to_owned()),
        },
    );
    entries.push(numbered("stack_alignment", stack_alignment as u64));
    entries.push(DictEntry { key: "types".to_owned(), value: AttributeValue::Dict(classes) });
    proof {
        assert(entry_views(entries@) =~= layout_spec(
            endianness,
            stack_alignment,
            types@,
        )->Dict_0);
        layout_keys_rise();
        neighbours_make_order(entry_views(entries@));
    }
    AttributeValue::Dict(AttributeDict::from_sorted(entries))
}

proof fn layout_keys_rise()
    ensures
        text_less("abi"@, "size"@),
        text_less("cache_line"@, "endianness"@),
        text_less("endianness"@, "stack_alignment"@),
        text_less("stack_alignment"@, "types"@),
{
    reveal_strlit("abi");
    reveal_strlit("size");
    reveal_strlit("cache_line");
    reveal_strlit("endianness");
    reveal_strlit("stack_alignment");
    reveal_strlit("types");
}

/// A layout reads back the size and the alignment it was built with for each
/// class, the last of a name standing.
pub proof fn built_layout_is_read_back(
    endianness: Endianness,
    stack_alignment: u32,
    types: Seq<(&str, u32, u32)>,
    k: int,
)
    requires
        0 <= k < types.len(),
        forall|j: int| k < j < types.len() ==> (#[trigger] types[j]).0@ != types[k].0@,
    ensures
        class_layout_of(
            layout_spec(endianness, stack_alignment, types)->Dict_0,
            types[k].0@,
        ) == Some((types[k].1, types[k].2)),
        bit_count(
            dict_lookup(
                layout_spec(endianness, stack_alignment, types)->Dict_0,
                "stack_alignment"@,
            ),
        ) == Some(stack_alignment),
{
    reveal_strlit("endianness");
    reveal_strlit("stack_alignment");
    reveal_strlit("cache_line");
    reveal_strlit("types");
    reveal_strlit("size");
    reveal_strlit("abi");
    let all = layout_spec(endianness, stack_alignment, types)->Dict_0;
    assert("endianness"@.len() != "types"@.len());
    assert("stack_alignment"@.len() != "types"@.len());
    assert("cache_line"@.len() != "types"@.len());
    assert("endianness"@.len() != "stack_alignment"@.len());
    assert("cache_line"@.len() != "stack_alignment"@.len());
    let one = all.skip(1);
    let two = one.skip(1);
    let three = two.skip(1);
    assert(one[0] == all[1]);
    assert(two[0] == all[2]);
    assert(three[0] == all[3]);
    assert(dict_lookup(three, "types"@) == Some(all[3].1));
    assert(dict_lookup(two, "types"@) == Some(all[3].1));
    assert(dict_lookup(one, "types"@) == Some(all[3].1));
    assert(dict_lookup(all, "types"@) == Some(all[3].1));
    assert(dict_lookup(two, "stack_alignment"@) == Some(all[2].1));
    assert(dict_lookup(one, "stack_alignment"@) == Some(all[2].1));
    class_spec_is_found(types, types.len() as int, k);
    let entry = class_spec(types[k].1, types[k].2)->Dict_0;
    assert(entry[0].0 == "abi"@);
    assert(entry.skip(1)[0] == entry[1]);
    assert("size"@.len() != "abi"@.len());
    assert(dict_lookup(entry, "abi"@) == Some(entry[0].1));
    assert(dict_lookup(entry, "size"@) == dict_lookup(entry.skip(1), "size"@));
}

proof fn class_spec_is_found(types: Seq<(&str, u32, u32)>, n: int, k: int)
    requires
        0 <= k < n <= types.len(),
        forall|j: int| k < j < types.len() ==> (#[trigger] types[j]).0@ != types[k].0@,
    ensures
        dict_lookup(class_specs(types, n), types[k].0@) == Some(
            class_spec(types[k].1, types[k].2),
        ),
    decreases n,
{
    let before = class_specs(types, n - 1);
    set_entry_is_read_back(
        before,
        types[n - 1].0@,
        class_spec(types[n - 1].1, types[n - 1].2),
        types[k].0@,
    );
    if k < n - 1 {
        class_spec_is_found(types, n - 1, k);
    }
}

/// Why one field of a type entry is wrong.
pub open spec fn field_failure(name: Seq<char>, field: (Seq<char>, AttrView)) -> Option<Seq<char>> {
    if field.0 != "size"@ && field.0 != "abi"@ && field.0 != "preferred"@ {
        Some(
            "unknown data_layout field '"@ + field.0 + "' in type entry '"@ + name
                + "' (expected size, abi, preferred)"@,
        )
    } else if bit_count(Some(field.1)) is None {
        Some("data_layout '"@ + name + "."@ + field.0 + "' must be a bit count"@)
    } else {
        None
    }
}

/// Why one type entry is wrong.
pub open spec fn class_failure(entry: (Seq<char>, AttrView)) -> Option<Seq<char>> {
    match entry.1 {
        AttrView::Dict(fields) => first_failure(
            |i: int| field_failure(entry.0, fields[i]),
            fields.len() as int,
        ),
        _ => Some("data_layout type entry '"@ + entry.0 + "' must be a dictionary"@),
    }
}

/// Why the type entries are wrong.
pub open spec fn types_failure(value: AttrView) -> Option<Seq<char>> {
    match value {
        AttrView::Dict(types) => first_failure(|i: int| class_failure(types[i]), types.len() as int),
        _ => Some("data_layout 'types' must be a dictionary"@),
    }
}

/// Why one entry of a layout is wrong.
pub open spec fn entry_failure(entry: (Seq<char>, AttrView)) -> Option<Seq<char>> {
    if entry.0 == "endianness"@ {
        if entry.1 == AttrView::Str("little"@) || entry.1 == AttrView::Str("big"@) {
            None
        } else {
            Some("data_layout 'endianness' must be \"little\" or \"big\""@)
        }
    } else if entry.0 == "stack_alignment"@ {
        if bit_count(Some(entry.1)) is None {
            Some("data_layout 'stack_alignment' must be a bit count"@)
        } else {
            None
        }
    } else if entry.0 == "types"@ {
        types_failure(entry.1)
    } else {
        None
    }
}

/// Why a layout spec is wrong.
pub open spec fn spec_failure(value: AttrView) -> Option<Seq<char>> {
    match value {
        AttrView::Dict(entries) => first_failure(
            |i: int| entry_failure(entries[i]),
            entries.len() as int,
        ),
        _ => Some("data_layout must be a dictionary"@),
    }
}

fn verify_fields(name: &str, fields: &AttributeDict) -> (r: Result<(), Error>)
    ensures
        verdict(
            r,
            first_failure(
                |i: int| field_failure(name@, fields@[i]),
                fields@.len() as int,
            ),
        ),
{
    let ghost all = fields@;
    let ghost at = |i: int| field_failure(name@, all[i]);
    let n: usize = fields.len();
    let mut i: usize = 0;
    while i < n
        invariant
            i <= n,
            n == fields@.len(),
            all == fields@,
            at == (|i: int| field_failure(name@, all[i])),
            first_failure(at, i as int) is None,
        decreases n - i,
    {
        let field = fields.key(i);
        assert(at(i as int) == field_failure(name@, all[i as int]));
        if !same(field, "size") && !same(field, "abi") && !same(field, "preferred") {
            proof {
                first_failure_stays(at, i + 1, fields@.len() as int);
            }
            let message = cat5(
                "unknown data_layout field '",
                field,
                "' in type entry '",
                name,
                "' (expected size, abi, preferred)",
            );
            return Err(invalid(message.as_str()));
        }
        if bits(Some(fields.value(i))).is_none() {
            proof {
                first_failure_stays(at, i + 1, fields@.len() as int);
            }
            let message = cat5("data_layout '", name, ".", field, "' must be a bit count");
            return Err(invalid(message.as_str()));
        }
        i += 1;
    }
    Ok(())
}

fn verify_types(value: &AttributeValue) -> (r: Result<(), Error>)
    ensures
        verdict(r, types_failure(value@)),
{
    let types = match value {
        AttributeValue::Dict(types) => types,
        _ => {
            return Err(invalid("data_layout 'types' must be a dictionary"));
        },
    };
    let ghost all = types@;
    let ghost at = |i: int| class_failure(all[i]);
    let n: usize = types.len();
    let mut i: usize = 0;
    while i < n
        invariant
            i <= n,
            n == types@.len(),
            all == types@,
            value@ == AttrView::Dict(all),
            at == (|i: int| class_failure(all[i])),
            first_failure(at, i as int) is None,
        decreases n - i,
    {
        let name = types.key(i);
        assert(at(i as int) == class_failure(all[i as int]));
        match types.value(i) {
            AttributeValue::Dict(fields) => {
                match verify_fields(name, fields) {
                    Ok(_) => {},
                    Err(e) => {
                        proof {
                            first_failure_stays(at, i + 1, types@.len() as int);
                        }
                        return Err(e);
                    },
                }
            },
            _ => {
                proof {
                    first_failure_stays(at, i + 1, types@.len() as int);
                }
                let message = cat3(
                    "data_layout type entry '",
                    name,
                    "' must be a dictionary",
                );
                return Err(invalid(message.as_str()));
            },
        }
        i += 1;
    }
    Ok(())
}

/// Checks the shape of a layout spec. Entries outside the predefined set are an
/// extension point and pass unexamined.
pub fn verify_spec(value: &AttributeValue) -> (r: Result<(), Error>)
    ensures
        verdict(r, spec_failure(value@)),
{
    let entries = match value {
        AttributeValue::Dict(entries) => entries,
        _ => {
            return Err(invalid("data_layout must be a dictionary"));
        },
    };
    let ghost all = entries@;
    let ghost at = |i: int| entry_failure(all[i]);
    let n: usize = entries.len();
    let mut i: usize = 0;
    while i < n
        invariant
            i <= n,
            n == entries@.len(),
            all == entries@,
            value@ == AttrView::Dict(all),
            at == (|i: int| entry_failure(all[i])),
            first_failure(at, i as int) is None,
        decreases n - i,
    {
        let key = entries.key(i);
        assert(at(i as int) == entry_failure(all[i as int]));
        if same(key, "endianness") {
            let known = match entries.value(i) {
                AttributeValue::Str(order) => same(order.as_str(), "little") || same(
                    order.as_str(),
                    "big",
                ),
                _ => false,
            };
            if !known {
                proof {
                    first_failure_stays(at, i + 1, entries@.len() as int);
                }
                return Err(
                    invalid("data_layout 'endianness' must be \"little\" or \"big\""),
                );
            }
        } else if same(key, "stack_alignment") {
            if bits(Some(entries.value(i))).is_none() {
                proof {
                    first_failure_stays(at, i + 1, entries@.len() as int);
                }
                return Err(invalid("data_layout 'stack_alignment' must be a bit count"));
            }
        } else if same(key, "types") {
            match verify_types(entries.value(i)) {
                Ok(_) => {},
                Err(e) => {
                    proof {
                        first_failure_stays(at, i + 1, entries@.len() as int);
                    }
                    return Err(e);
                },
            }
        }
        i += 1;
    }
    Ok(())
}

} // verus!
