//! Global data objects and the addresses of symbols.
use vstd::prelude::*;
use crate::access::array_attr;
use crate::access::flag_attr;
use crate::access::str_attr;
use crate::access::uint_attr;
use crate::attributes::attr_view;
use crate::attributes::attr_views;
use crate::attributes::dict_lookup;
use crate::attributes::AttrView;
use crate::attributes::AttributeValue;
use crate::builder::BuilderView;
use crate::builder::OpBuilder;
use crate::context::Context;
use crate::context::ContextView;
use crate::context::OpHandle;
use crate::dependency::value_name;
use crate::dependency::value_text;
use crate::error::invalid;
use crate::error::verdict;
use crate::error::Error;
use crate::ids::OpId;
use crate::ids::TypeId;
use crate::ids::ValueId;
use crate::ir_formatter::IRFormatter;
use crate::text::cat2;
use crate::text::cat3;
use crate::text::decimal;
use crate::text::decimal_string;
use crate::text::same;

verus! {

/// A δ node: a global data object, producing the address of its storage.
///
/// A definition carries an alignment and either an initializer (`bytes`, plus
/// the `relocations` patched into it) or a zero-filled `size`. A declaration of
/// an object another module defines carries `external` and neither.
#[derive(Debug, Clone, Copy)]
pub struct GlobalOp(pub OpHandle);

/// The address of a symbol, materialized inside a function.
#[derive(Debug, Clone, Copy)]
pub struct SymAddrOp(pub OpHandle);

/// Builds a [`GlobalOp`].
pub struct GlobalOpBuilder(pub OpBuilder);

/// One byte of an initializer.
pub open spec fn byte_of(item: AttrView) -> Option<u8> {
    match item {
        AttrView::UInt(n) => if n <= u8::MAX {
            Some(n as u8)
        } else {
            None
        },
        AttrView::Int(n) => if 0 <= n <= u8::MAX {
            Some(n as u8)
        } else {
            None
        },
        _ => None,
    }
}

/// The bytes of an initializer, where every entry is one.
pub open spec fn bytes_of(items: Seq<AttrView>) -> Option<Seq<u8>> {
    if forall|i: int| 0 <= i < items.len() ==> byte_of(#[trigger] items[i]) is Some {
        Some(items.map_values(|item: AttrView| byte_of(item)->0))
    } else {
        None
    }
}

/// An address patched into an initializer: where, of what, how far past it, and
/// how wide.
pub ghost struct RelocationView {
    pub offset: nat,
    pub symbol: Seq<char>,
    pub addend: int,
    pub width: nat,
}

/// The address a relocation entry describes.
pub open spec fn relocation_of(item: AttrView) -> Option<RelocationView> {
    match item {
        AttrView::Dict(fields) => match (
            dict_lookup(fields, "offset"@),
            dict_lookup(fields, "symbol"@),
            dict_lookup(fields, "addend"@),
            dict_lookup(fields, "width"@),
        ) {
            (
                Some(AttrView::UInt(offset)),
                Some(AttrView::Str(symbol)),
                Some(AttrView::Int(addend)),
                Some(AttrView::UInt(width)),
            ) => Some(RelocationView { offset, symbol, addend, width }),
            _ => None,
        },
        _ => None,
    }
}

impl ContextView {
    /// The initializer image of a global, before relocations are patched in.
    pub open spec fn global_bytes(self, op: OpId) -> Option<Seq<u8>> {
        match self.array_attr(op, "bytes"@) {
            Some(items) => bytes_of(items),
            None => None,
        }
    }

    /// Why a global is wrong.
    pub open spec fn global_failure(self, op: OpId) -> Option<Seq<char>> {
        let name = self.str_attr(op, "sym_name"@)->0;
        let bytes = self.global_bytes(op) is Some;
        let size = self.uint_attr(op, "size"@) is Some;
        let align = self.uint_attr(op, "align"@);
        if self.flag_attr(op, "external"@) {
            if bytes || size || align is Some {
                Some(
                    "external global '@"@ + name + "' declares storage it does not define"@,
                )
            } else {
                None
            }
        } else if bytes == size {
            Some(
                "global '@"@ + name
                    + "' must carry either an initializer or a zero-filled size"@,
            )
        } else if align is Some && power_of_two(align->0) {
            None
        } else {
            Some("global '@"@ + name + "' must carry a power-of-two alignment"@)
        }
    }
}

/// Whether a number is a power of two.
pub open spec fn power_of_two(n: nat) -> bool
    decreases n,
{
    if n == 0 {
        false
    } else if n == 1 {
        true
    } else {
        n % 2 == 0 && power_of_two(n / 2)
    }
}

/// Whether a number is a power of two.
pub fn is_power_of_two(n: u64) -> (r: bool)
    ensures
        r == power_of_two(n as nat),
{
    let mut left: u64 = n;
    while left > 1
        invariant
            power_of_two(n as nat) == power_of_two(left as nat),
        decreases left,
    {
        if left % 2 != 0 {
            return false;
        }
        left = left / 2;
    }
    left == 1
}

/// What patches an address into an initializer.
#[derive(Debug)]
pub struct Relocation {
    pub offset: u64,
    pub symbol: String,
    pub addend: i64,
    pub width: u64,
}

impl View for Relocation {
    type V = RelocationView;

    open spec fn view(&self) -> RelocationView {
        RelocationView {
            offset: self.offset as nat,
            symbol: self.symbol@,
            addend: self.addend as int,
            width: self.width as nat,
        }
    }
}

impl GlobalOp {
    /// The address of this object's storage.
    pub fn address(&self, context: &Context) -> (v: ValueId)
        requires
            context.inv(),
            context@.ir.op(self.0.id) is Some,
            context@.ir.op(self.0.id)->0.results.len() > 0,
        ensures
            v == context@.ir.op(self.0.id)->0.results[0],
    {
        context.results_of(self.0.id)[0]
    }

    /// The name of the object.
    pub fn sym_name(&self, context: &Context) -> (s: String)
        requires
            context.inv(),
            context@.str_attr(self.0.id, "sym_name"@) is Some,
        ensures
            context@.str_attr(self.0.id, "sym_name"@) == Some(s@),
    {
        str_attr(context, self.0.id, "sym_name").unwrap()
    }

    /// Whether this only declares an object another module defines.
    pub fn is_external(&self, context: &Context) -> (r: bool)
        requires
            context.inv(),
        ensures
            r == context@.flag_attr(self.0.id, "external"@),
    {
        flag_attr(context, self.0.id, "external")
    }

    /// The alignment of the object.
    pub fn align(&self, context: &Context) -> (r: Option<u64>)
        requires
            context.inv(),
        ensures
            match r {
                Some(n) => context@.uint_attr(self.0.id, "align"@) == Some(n as nat),
                None => context@.uint_attr(self.0.id, "align"@) is None,
            },
    {
        uint_attr(context, self.0.id, "align")
    }

    /// The zero-filled size, for an object with no initializer.
    pub fn size(&self, context: &Context) -> (r: Option<u64>)
        requires
            context.inv(),
        ensures
            match r {
                Some(n) => context@.uint_attr(self.0.id, "size"@) == Some(n as nat),
                None => context@.uint_attr(self.0.id, "size"@) is None,
            },
    {
        uint_attr(context, self.0.id, "size")
    }

    /// The initializer image, before relocations are patched in.
    pub fn bytes(&self, context: &Context) -> (r: Option<Vec<u8>>)
        requires
            context.inv(),
        ensures
            match r {
                Some(bytes) => context@.global_bytes(self.0.id) == Some(bytes@),
                None => context@.global_bytes(self.0.id) is None,
            },
    {
        let items = match array_attr(context, self.0.id, "bytes") {
            Some(items) => items,
            None => {
                return None;
            },
        };
        let ghost all = attr_views(items@);
        let mut r: Vec<u8> = Vec::new();
        let mut i: usize = 0;
        while i < items.len()
            invariant
                i <= items.len(),
                all == attr_views(items@),
                context@.array_attr(self.0.id, "bytes"@) == Some(all),
                r.len() == i,
                forall|k: int| 0 <= k < i ==> byte_of(#[trigger] all[k]) == Some(r@[k]),
            decreases items.len() - i,
        {
            assert(all[i as int] == attr_view(items@[i as int]));
            match &items[i] {
                AttributeValue::UInt(n) => {
                    if *n > u8::MAX as u64 {
                        assert(byte_of(all[i as int]) is None);
                        return None;
                    }
                    r.push(*n as u8);
                },
                AttributeValue::Int(n) => {
                    if *n < 0 || *n > u8::MAX as i64 {
                        assert(byte_of(all[i as int]) is None);
                        return None;
                    }
                    r.push(*n as u8);
                },
                _ => {
                    assert(byte_of(all[i as int]) is None);
                    return None;
                },
            }
            i += 1;
        }
        assert(bytes_of(all)->0 =~= r@);
        Some(r)
    }

    /// The section the object belongs to, when it is not the default for its
    /// initializer.
    pub fn section(&self, context: &Context) -> (r: Option<String>)
        requires
            context.inv(),
        ensures
            match r {
                Some(name) => context@.str_attr(self.0.id, "section"@) == Some(name@),
                None => context@.str_attr(self.0.id, "section"@) is None,
            },
    {
        str_attr(context, self.0.id, "section")
    }

    /// The addresses patched into the initializer.
    pub fn relocations(&self, context: &Context) -> (r: Vec<Relocation>)
        requires
            context.inv(),
            match context@.array_attr(self.0.id, "relocations"@) {
                Some(items) => forall|i: int|
                    0 <= i < items.len() ==> relocation_of(#[trigger] items[i]) is Some,
                None => true,
            },
        ensures
            match context@.array_attr(self.0.id, "relocations"@) {
                Some(items) => r@.len() == items.len() && forall|i: int|
                    0 <= i < items.len() ==> relocation_of(#[trigger] items[i]) == Some(r@[i]@),
                None => r@.len() == 0,
            },
    {
        let mut r: Vec<Relocation> = Vec::new();
        let items = match array_attr(context, self.0.id, "relocations") {
            Some(items) => items,
            None => {
                return r;
            },
        };
        let ghost all = attr_views(items@);
        let mut i: usize = 0;
        while i < items.len()
            invariant
                i <= items.len(),
                all == attr_views(items@),
                r.len() == i,
                forall|k: int| 0 <= k < all.len() ==> relocation_of(#[trigger] all[k]) is Some,
                forall|k: int| 0 <= k < i ==> relocation_of(#[trigger] all[k]) == Some(r@[k]@),
            decreases items.len() - i,
        {
            assert(all[i as int] == attr_view(items@[i as int]));
            assert(relocation_of(all[i as int]) is Some);
            if let AttributeValue::Dict(fields) = &items[i] {
                let offset = fields.get("offset");
                let symbol = fields.get("symbol");
                let addend = fields.get("addend");
                let width = fields.get("width");
                if let (
                    Some(AttributeValue::UInt(offset)),
                    Some(AttributeValue::Str(symbol)),
                    Some(AttributeValue::Int(addend)),
                    Some(AttributeValue::UInt(width)),
                ) = (offset, symbol, addend, width) {
                    r.push(
                        Relocation {
                            offset: *offset,
                            symbol: symbol.clone(),
                            addend: *addend,
                            width: *width,
                        },
                    );
                }
            }
            assert(r.len() == i + 1);
            i += 1;
        }
        r
    }

    /// Checks that a definition carries storage of one kind and an alignment,
    /// and a declaration none.
    pub fn verify_impl(&self, context: &Context) -> (r: Result<(), Error>)
        requires
            context.inv(),
            context@.str_attr(self.0.id, "sym_name"@) is Some,
        ensures
            verdict(r, context@.global_failure(self.0.id)),
    {
        let name = self.sym_name(context);
        let bytes = self.bytes(context).is_some();
        let size = self.size(context).is_some();
        if self.is_external(context) {
            if bytes || size || self.align(context).is_some() {
                let message = cat3(
                    "external global '@",
                    name.as_str(),
                    "' declares storage it does not define",
                );
                return Err(invalid(message.as_str()));
            }
            return Ok(());
        }
        if bytes == size {
            let message = cat3(
                "global '@",
                name.as_str(),
                "' must carry either an initializer or a zero-filled size",
            );
            return Err(invalid(message.as_str()));
        }
        let aligned = match self.align(context) {
            Some(align) => is_power_of_two(align),
            None => false,
        };
        if !aligned {
            let message = cat3(
                "global '@",
                name.as_str(),
                "' must carry a power-of-two alignment",
            );
            return Err(invalid(message.as_str()));
        }
        Ok(())
    }
}

impl ContextView {
    /// An object as it is written, its initializer printed as `bytes` and what is
    /// patched into it as `relocations`.
    pub open spec fn global_text(
        self,
        op: OpId,
        bytes: Seq<char>,
        relocations: Seq<char>,
    ) -> Seq<char> {
        let none = Seq::<char>::empty();
        value_name(self.ir.op(op)->0.results[0]) + " = global"@ + (if self.str_attr(
            op,
            "sym_visibility"@,
        ) == Some("private"@) {
            " private"@
        } else {
            none
        }) + (if self.flag_attr(op, "external"@) {
            " external"@
        } else {
            none
        }) + " @"@ + self.str_attr(op, "sym_name"@)->0 + (match self.uint_attr(op, "size"@) {
            Some(n) => " size "@ + decimal(n),
            None => none,
        }) + (match self.uint_attr(op, "align"@) {
            Some(n) => " align "@ + decimal(n),
            None => none,
        }) + (match self.str_attr(op, "section"@) {
            Some(name) => " section \""@ + name + "\""@,
            None => none,
        }) + (if self.attr(op, "bytes"@) is Some {
            " bytes "@ + bytes
        } else {
            none
        }) + (if self.attr(op, "relocations"@) is Some {
            " relocations "@ + relocations
        } else {
            none
        }) + "\n"@
    }
}

impl GlobalOp {
    /// Prints the object, its initializer printed as `bytes` and what is patched into
    /// it as `relocations`.
    pub fn custom_print(
        &self,
        context: &Context,
        fmt: &mut IRFormatter,
        bytes: &str,
        relocations: &str,
    )
        requires
            context.inv(),
            context@.ir.op(self.0.id) is Some,
            context@.ir.op(self.0.id)->0.results.len() > 0,
            context@.str_attr(self.0.id, "sym_name"@) is Some,
        ensures
            final(fmt)@ == old(fmt)@.written(
                context@.global_text(self.0.id, bytes@, relocations@),
            ),
    {
        let ghost op = self.0.id;
        let ghost none = Seq::<char>::empty();
        let mut text = cat2(value_text(self.address(context)).as_str(), " = global");
        let private = match str_attr(context, self.0.id, "sym_visibility") {
            Some(word) => same(word.as_str(), "private"),
            None => false,
        };
        if private {
            text.append(" private");
        }
        let ghost shown = if private {
            " private"@
        } else {
            none
        };
        assert(text@ =~= value_name(context@.ir.op(op)->0.results[0]) + " = global"@ + shown);
        let ghost before = text@;
        if self.is_external(context) {
            text.append(" external");
        }
        assert(text@ =~= before + (if context@.flag_attr(op, "external"@) {
            " external"@
        } else {
            none
        }));
        text.append(" @");
        text.append(self.sym_name(context).as_str());
        let ghost before = text@;
        if let Some(n) = self.size(context) {
            text.append(cat2(" size ", decimal_string(n).as_str()).as_str());
        }
        assert(text@ =~= before + (match context@.uint_attr(op, "size"@) {
            Some(n) => " size "@ + decimal(n),
            None => none,
        }));
        let ghost before = text@;
        if let Some(n) = self.align(context) {
            text.append(cat2(" align ", decimal_string(n).as_str()).as_str());
        }
        assert(text@ =~= before + (match context@.uint_attr(op, "align"@) {
            Some(n) => " align "@ + decimal(n),
            None => none,
        }));
        let ghost before = text@;
        if let Some(name) = self.section(context) {
            text.append(cat3(" section \"", name.as_str(), "\"").as_str());
        }
        assert(text@ =~= before + (match context@.str_attr(op, "section"@) {
            Some(name) => " section \""@ + name + "\""@,
            None => none,
        }));
        let ghost before = text@;
        if context.with_attr(self.0.id, "bytes").is_some() {
            text.append(cat2(" bytes ", bytes).as_str());
        }
        assert(text@ =~= before + (if context@.attr(op, "bytes"@) is Some {
            " bytes "@ + bytes@
        } else {
            none
        }));
        let ghost before = text@;
        if context.with_attr(self.0.id, "relocations").is_some() {
            text.append(cat2(" relocations ", relocations).as_str());
        }
        assert(text@ =~= before + (if context@.attr(op, "relocations"@) is Some {
            " relocations "@ + relocations@
        } else {
            none
        }));
        text.append("\n");
        fmt.write(text.as_str());
    }
}

impl SymAddrOp {
    /// The name of the symbol.
    pub fn sym_name(&self, context: &Context) -> (s: String)
        requires
            context.inv(),
            context@.str_attr(self.0.id, "sym_name"@) is Some,
        ensures
            context@.str_attr(self.0.id, "sym_name"@) == Some(s@),
    {
        str_attr(context, self.0.id, "sym_name").unwrap()
    }
}

/// The initializer attribute of `bytes`.
pub open spec fn bytes_attr_view(bytes: Seq<u8>) -> AttrView {
    AttrView::Array(bytes.map_values(|b: u8| AttrView::UInt(b as nat)))
}

/// The bytes an initializer was built from are the bytes it reads as.
pub proof fn bytes_are_read_back(bytes: Seq<u8>)
    ensures
        bytes_of(bytes_attr_view(bytes)->Array_0) == Some(bytes),
{
    let items = bytes_attr_view(bytes)->Array_0;
    assert(bytes_of(items)->0 =~= bytes);
}

fn bytes_attr(bytes: &Vec<u8>) -> (r: AttributeValue)
    ensures
        r@ == bytes_attr_view(bytes@),
{
    let mut items: Vec<AttributeValue> = Vec::new();
    let mut i: usize = 0;
    while i < bytes.len()
        invariant
            i <= bytes.len(),
            items.len() == i,
            forall|k: int|
                0 <= k < i ==> attr_view(#[trigger] items@[k]) == AttrView::UInt(bytes@[k] as nat),
        decreases bytes.len() - i,
    {
        items.push(AttributeValue::UInt(bytes[i] as u64));
        i += 1;
    }
    let r = AttributeValue::Array(items);
    assert(attr_view(r)->Array_0 =~= bytes@.map_values(|b: u8| AttrView::UInt(b as nat)));
    r
}

/// What a global called `name` is built from.
pub open spec fn named_global(name: Seq<char>) -> BuilderView {
    BuilderView::fresh("builtin"@, "global"@).with_attr("sym_name"@, AttrView::Str(name))
}

/// A δ definition holding `bytes`, aligned to `align`, whose address is of type
/// `pointer`.
pub fn global_bytes(name: &str, bytes: Vec<u8>, align: u64, pointer: TypeId) -> (r: GlobalOpBuilder)
    ensures
        r.0@ == named_global(name@).with_attr("bytes"@, bytes_attr_view(bytes@)).with_attr(
            "align"@,
            AttrView::UInt(align as nat),
        ).with_result(pointer),
{
    GlobalOpBuilder(
        OpBuilder::new("builtin", "global").attr(
            "sym_name",
            AttributeValue::Str(name.to_owned()),
        ).attr("bytes", bytes_attr(&bytes)).attr(
            "align",
            AttributeValue::UInt(align),
        ).result_type(pointer),
    )
}

/// A δ definition reserving `size` zero bytes, aligned to `align`.
pub fn global_zero(name: &str, size: u64, align: u64, pointer: TypeId) -> (r: GlobalOpBuilder)
    ensures
        r.0@ == named_global(name@).with_attr("size"@, AttrView::UInt(size as nat)).with_attr(
            "align"@,
            AttrView::UInt(align as nat),
        ).with_result(pointer),
{
    GlobalOpBuilder(
        OpBuilder::new("builtin", "global").attr(
            "sym_name",
            AttributeValue::Str(name.to_owned()),
        ).attr("size", AttributeValue::UInt(size)).attr(
            "align",
            AttributeValue::UInt(align),
        ).result_type(pointer),
    )
}

/// A δ declaration of an object another module defines.
pub fn global_external(name: &str, pointer: TypeId) -> (r: GlobalOpBuilder)
    ensures
        r.0@ == named_global(name@).with_attr("external"@, AttrView::Bool(true)).with_result(
            pointer,
        ),
{
    GlobalOpBuilder(
        OpBuilder::new("builtin", "global").attr(
            "sym_name",
            AttributeValue::Str(name.to_owned()),
        ).attr("external", AttributeValue::Bool(true)).result_type(pointer),
    )
}

impl GlobalOpBuilder {
    /// Stores the global.
    pub fn build(self, context: &mut Context) -> (op: GlobalOp)
        requires
            old(context).inv(),
            self.0@.fits(old(context)@),
        ensures
            final(context).inv(),
            final(context)@ == self.0@.built(old(context)@),
            op.0.id == OpId(old(context)@.ir.ops.now.len() as u32),
            final(context)@.ir.op(op.0.id) == Some(self.0@.op(old(context)@)),
    {
        GlobalOp(self.0.build(context))
    }
}

/// What the address of the symbol `name` is built from.
pub open spec fn symbol_address_view(name: Seq<char>, pointer: TypeId) -> BuilderView {
    BuilderView::fresh("builtin"@, "sym_addr"@).with_attr(
        "sym_name"@,
        AttrView::Str(name),
    ).with_result(pointer)
}

/// Stores the address of `name`, as an opaque pointer of type `pointer`.
pub fn symbol_address(context: &mut Context, name: &str, pointer: TypeId) -> (op: SymAddrOp)
    requires
        old(context).inv(),
        symbol_address_view(name@, pointer).fits(old(context)@),
    ensures
        final(context).inv(),
        final(context)@ == symbol_address_view(name@, pointer).built(old(context)@),
        op.0.id == OpId(old(context)@.ir.ops.now.len() as u32),
{
    SymAddrOp(
        OpBuilder::new("builtin", "sym_addr").attr(
            "sym_name",
            AttributeValue::Str(name.to_owned()),
        ).result_type(pointer).build(context),
    )
}

} // verus!
