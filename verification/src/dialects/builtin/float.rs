//! Floating-point arithmetic, and the block-scoped fast-math mechanism:
//! rewrites are only valid under the [`FastMathFlags`] in effect for the op,
//! resolved by [`fp_math_flags`] from the nearest enclosing `fpmath` attribute
//! (on a block, or on a region-owning op). The default, with no attribute
//! anywhere, is strict IEEE 754: no value-changing transform is allowed.
//! Isolating an expression in its own block therefore scopes a relaxation (such
//! as `contract`) to just that expression.
use vstd::prelude::*;
use vstd::string::*;
use crate::access::str_attr;
use crate::attributes::find_attribute;
use crate::attributes::AttrView;
use crate::attributes::AttributeValue;
use crate::builder::OpBuilder;
use crate::context::Context;
use crate::context::ContextView;
use crate::context::OpHandle;
use crate::graph::MutDag;
use crate::graph::NodeId;
use crate::ids::BlockId;
use crate::ids::OpId;
use crate::interfaces::Commutative;
use crate::ir::Parent;
use crate::sem::add_leaf;
use crate::sem::with_leaf;
use crate::sem::SymKind;
use crate::sem::SymPayload;
use crate::text::cat3;
use crate::text::same;
use crate::ty::FloatType;

verus! {

/// A sum of floats.
#[derive(Debug, Clone, Copy)]
pub struct AddFOp(pub OpHandle);

/// A product of floats.
#[derive(Debug, Clone, Copy)]
pub struct MulFOp(pub OpHandle);

impl Commutative for AddFOp {

}

impl Commutative for MulFOp {

}

/// The attribute consulted by [`fp_math_flags`], valid on blocks and on
/// region-owning operations. Its value is a string accepted by
/// [`FastMathFlags::parse`].
pub const FPMATH_ATTR: &'static str = "fpmath";

/// IEEE-relaxation flags gating floating-point optimizations. No flag set means
/// strict IEEE 754.
#[derive(Clone, Copy, Debug, PartialEq, Eq, Structural)]
pub struct FastMathFlags {
    /// Allow fusing a multiply and an add into an fma.
    pub contract: bool,
    /// Allow reassociation of a chain of same-kind ops.
    pub reassoc: bool,
    /// Assume no NaN operands or results.
    pub nnan: bool,
    /// Assume no infinite operands or results.
    pub ninf: bool,
    /// Treat the sign of a zero as insignificant.
    pub nsz: bool,
    /// Allow replacing a division with a multiply by the reciprocal.
    pub arcp: bool,
}

/// Whether a character is white space.
pub open spec fn is_space(c: char) -> bool {
    let n = c as int;
    9 <= n <= 13 || n == 0x20 || n == 0x85 || n == 0xa0 || n == 0x1680 || 0x2000 <= n <= 0x200a || n
        == 0x2028 || n == 0x2029 || n == 0x202f || n == 0x205f || n == 0x3000
}

/// A text without the white space around it.
pub open spec fn trimmed(s: Seq<char>) -> Seq<char>
    decreases s.len(),
{
    if s.len() == 0 {
        s
    } else if is_space(s[0]) {
        trimmed(s.skip(1))
    } else if is_space(s.last()) {
        trimmed(s.drop_last())
    } else {
        s
    }
}

/// Where the first comma of a text stands, or its length.
pub open spec fn comma_in(s: Seq<char>) -> int
    decreases s.len(),
{
    if s.len() == 0 || s[0] == ',' {
        0
    } else {
        1 + comma_in(s.skip(1))
    }
}

proof fn comma_is_first(s: Seq<char>)
    ensures
        0 <= comma_in(s) <= s.len(),
        forall|i: int| 0 <= i < comma_in(s) ==> s[i] != ',',
        comma_in(s) < s.len() ==> s[comma_in(s)] == ',',
    decreases s.len(),
{
    if s.len() > 0 && s[0] != ',' {
        comma_is_first(s.skip(1));
        assert forall|i: int| 0 <= i < comma_in(s) implies s[i] != ',' by {
            if i > 0 {
                assert(s[i] == s.skip(1)[i - 1]);
            }
        }
        if comma_in(s) < s.len() {
            assert(s[comma_in(s)] == s.skip(1)[comma_in(s) - 1]);
        }
    }
}

proof fn comma_at(s: Seq<char>, at: int)
    requires
        0 <= at <= s.len(),
        forall|i: int| 0 <= i < at ==> s[i] != ',',
        at < s.len() ==> s[at] == ',',
    ensures
        comma_in(s) == at,
{
    comma_is_first(s);
    if comma_in(s) < at {
        assert(s[comma_in(s)] == ',');
    } else if comma_in(s) > at {
        assert(s[at] != ',');
    }
}

impl FastMathFlags {
    /// The flag `name` names.
    pub open spec fn named(name: Seq<char>) -> Option<FastMathFlags> {
        let none = FastMathFlags {
            contract: false,
            reassoc: false,
            nnan: false,
            ninf: false,
            nsz: false,
            arcp: false,
        };
        if name == "contract"@ {
            Some(FastMathFlags { contract: true, ..none })
        } else if name == "reassoc"@ {
            Some(FastMathFlags { reassoc: true, ..none })
        } else if name == "nnan"@ {
            Some(FastMathFlags { nnan: true, ..none })
        } else if name == "ninf"@ {
            Some(FastMathFlags { ninf: true, ..none })
        } else if name == "nsz"@ {
            Some(FastMathFlags { nsz: true, ..none })
        } else if name == "arcp"@ {
            Some(FastMathFlags { arcp: true, ..none })
        } else {
            None
        }
    }

    /// Every flag either sets.
    pub open spec fn both(self, other: FastMathFlags) -> FastMathFlags {
        FastMathFlags {
            contract: self.contract || other.contract,
            reassoc: self.reassoc || other.reassoc,
            nnan: self.nnan || other.nnan,
            ninf: self.ninf || other.ninf,
            nsz: self.nsz || other.nsz,
            arcp: self.arcp || other.arcp,
        }
    }

    /// `acc` and the flags a comma-separated list names, where it names only
    /// flags.
    pub open spec fn listed(s: Seq<char>, acc: FastMathFlags) -> Option<FastMathFlags>
        decreases s.len(),
    {
        let at = comma_in(s);
        match FastMathFlags::named(trimmed(s.take(at))) {
            None => None,
            Some(flag) => if 0 <= at < s.len() {
                FastMathFlags::listed(s.skip(at + 1), acc.both(flag))
            } else {
                Some(acc.both(flag))
            },
        }
    }

    /// The flags a text names: `none`, `fast` or a comma-separated list.
    pub open spec fn parsed(s: Seq<char>) -> Option<FastMathFlags> {
        if trimmed(s) == "none"@ {
            Some(FastMathFlags::none_set())
        } else if trimmed(s) == "fast"@ {
            Some(FastMathFlags::all_set())
        } else {
            FastMathFlags::listed(s, FastMathFlags::none_set())
        }
    }

    pub open spec fn none_set() -> FastMathFlags {
        FastMathFlags {
            contract: false,
            reassoc: false,
            nnan: false,
            ninf: false,
            nsz: false,
            arcp: false,
        }
    }

    pub open spec fn all_set() -> FastMathFlags {
        FastMathFlags {
            contract: true,
            reassoc: true,
            nnan: true,
            ninf: true,
            nsz: true,
            arcp: true,
        }
    }

    /// Strict IEEE 754: no value-changing transforms.
    pub fn none() -> (f: Self)
        ensures
            f == FastMathFlags::none_set(),
    {
        FastMathFlags {
            contract: false,
            reassoc: false,
            nnan: false,
            ninf: false,
            nsz: false,
            arcp: false,
        }
    }

    /// Every relaxation.
    pub fn fast() -> (f: Self)
        ensures
            f == FastMathFlags::all_set(),
    {
        FastMathFlags {
            contract: true,
            reassoc: true,
            nnan: true,
            ninf: true,
            nsz: true,
            arcp: true,
        }
    }

    /// Whether every flag of `flags` is set here.
    pub fn contains(self, flags: Self) -> (r: bool)
        ensures
            r == (self.both(flags) == self),
    {
        (self.contract || !flags.contract) && (self.reassoc || !flags.reassoc) && (self.nnan
            || !flags.nnan) && (self.ninf || !flags.ninf) && (self.nsz || !flags.nsz) && (self.arcp
            || !flags.arcp)
    }

    /// Every flag either sets.
    pub fn union(self, flags: Self) -> (r: Self)
        ensures
            r == self.both(flags),
    {
        FastMathFlags {
            contract: self.contract || flags.contract,
            reassoc: self.reassoc || flags.reassoc,
            nnan: self.nnan || flags.nnan,
            ninf: self.ninf || flags.ninf,
            nsz: self.nsz || flags.nsz,
            arcp: self.arcp || flags.arcp,
        }
    }

    fn flag(name: &str) -> (r: Option<Self>)
        ensures
            r == FastMathFlags::named(name@),
    {
        let none = FastMathFlags::none();
        if same(name, "contract") {
            Some(FastMathFlags { contract: true, ..none })
        } else if same(name, "reassoc") {
            Some(FastMathFlags { reassoc: true, ..none })
        } else if same(name, "nnan") {
            Some(FastMathFlags { nnan: true, ..none })
        } else if same(name, "ninf") {
            Some(FastMathFlags { ninf: true, ..none })
        } else if same(name, "nsz") {
            Some(FastMathFlags { nsz: true, ..none })
        } else if same(name, "arcp") {
            Some(FastMathFlags { arcp: true, ..none })
        } else {
            None
        }
    }

    /// Parse `"none"`, `"fast"`, or a comma-separated flag list (such as
    /// `"contract,nnan"`). `None` on any unknown flag.
    pub fn parse(spec: &str) -> (r: Option<Self>)
        ensures
            r == FastMathFlags::parsed(spec@),
    {
        let len: usize = spec.unicode_len();
        let whole = trim(spec, 0, len);
        assert(spec@.subrange(0, len as int) =~= spec@);
        if same(whole.as_str(), "none") {
            return Some(FastMathFlags::none());
        }
        if same(whole.as_str(), "fast") {
            return Some(FastMathFlags::fast());
        }
        let mut acc = FastMathFlags::none();
        let mut start: usize = 0;
        assert(spec@.skip(0) =~= spec@);
        loop
            invariant
                start <= len,
                len == spec@.len(),
                trimmed(spec@) != "none"@,
                trimmed(spec@) != "fast"@,
                FastMathFlags::listed(spec@.skip(start as int), acc) == FastMathFlags::listed(
                    spec@,
                    FastMathFlags::none_set(),
                ),
            decreases len - start,
        {
            let ghost rest = spec@.skip(start as int);
            let mut end: usize = start;
            while end < len && spec.get_char(end) != ','
                invariant
                    start <= end <= len,
                    len == spec@.len(),
                    forall|i: int| start <= i < end ==> spec@[i] != ',',
                decreases len - end,
            {
                end += 1;
            }
            proof {
                assert forall|i: int| 0 <= i < end - start implies rest[i] != ',' by {
                    assert(rest[i] == spec@[start + i]);
                }
                comma_at(rest, end - start);
                assert(rest.take(end - start) =~= spec@.subrange(start as int, end as int));
            }
            let name = trim(spec, start, end);
            let flag = match FastMathFlags::flag(name.as_str()) {
                Some(flag) => flag,
                None => {
                    return None;
                },
            };
            if end == len {
                return Some(acc.union(flag));
            }
            assert(rest.skip(end - start + 1) =~= spec@.skip(end + 1));
            acc = acc.union(flag);
            start = end + 1;
        }
    }
}

pub fn space(c: char) -> (r: bool)
    ensures
        r == is_space(c),
{
    let n: u32 = c as u32;
    (9 <= n && n <= 13) || n == 0x20 || n == 0x85 || n == 0xa0 || n == 0x1680 || (0x2000 <= n && n
        <= 0x200a) || n == 0x2028 || n == 0x2029 || n == 0x202f || n == 0x205f || n == 0x3000
}

fn trim(s: &str, from: usize, to: usize) -> (r: String)
    requires
        from <= to <= s@.len(),
    ensures
        r@ == trimmed(s@.subrange(from as int, to as int)),
{
    let mut start: usize = from;
    let mut end: usize = to;
    while start < end && space(s.get_char(start))
        invariant
            from <= start <= end <= to <= s@.len(),
            trimmed(s@.subrange(start as int, end as int)) == trimmed(
                s@.subrange(from as int, to as int),
            ),
        decreases end - start,
    {
        let ghost piece = s@.subrange(start as int, end as int);
        assert(piece.skip(1) =~= s@.subrange(start + 1, end as int));
        start += 1;
    }
    while start < end && space(s.get_char(end - 1))
        invariant
            from <= start <= end <= to <= s@.len(),
            start < end ==> !is_space(s@[start as int]),
            trimmed(s@.subrange(start as int, end as int)) == trimmed(
                s@.subrange(from as int, to as int),
            ),
        decreases end - start,
    {
        let ghost piece = s@.subrange(start as int, end as int);
        assert(piece.drop_last() =~= s@.subrange(start as int, end - 1));
        end -= 1;
    }
    proof {
        let piece = s@.subrange(start as int, end as int);
        if start < end {
            assert(piece[0] == s@[start as int]);
            assert(piece.last() == s@[end - 1]);
        }
        assert(trimmed(piece) == piece);
    }
    s.substring_char(start, end).to_owned()
}

/// Texts with a comma between each two.
pub open spec fn joined(names: Seq<Seq<char>>) -> Seq<char>
    decreases names.len(),
{
    if names.len() == 0 {
        Seq::empty()
    } else if names.len() == 1 {
        names[0]
    } else {
        names[0] + ","@ + joined(names.skip(1))
    }
}

/// A list of one name where `set` holds.
pub open spec fn chosen(set: bool, name: Seq<char>) -> Seq<Seq<char>> {
    if set {
        seq![name]
    } else {
        Seq::empty()
    }
}

impl FastMathFlags {
    /// The names of the flags that are set.
    pub open spec fn names(self) -> Seq<Seq<char>> {
        chosen(self.contract, "contract"@) + chosen(self.reassoc, "reassoc"@) + chosen(
            self.nnan,
            "nnan"@,
        ) + chosen(self.ninf, "ninf"@) + chosen(self.nsz, "nsz"@) + chosen(self.arcp, "arcp"@)
    }

    /// How the flags are written.
    pub open spec fn spelling(self) -> Seq<char> {
        if self == FastMathFlags::none_set() {
            "none"@
        } else if self == FastMathFlags::all_set() {
            "fast"@
        } else {
            joined(self.names())
        }
    }

    /// How the flags are written: `none`, `fast` or a comma-separated list.
    pub fn text(self) -> (s: String)
        ensures
            s@ == self.spelling(),
    {
        if self == FastMathFlags::none() {
            return "none".to_owned();
        }
        if self == FastMathFlags::fast() {
            return "fast".to_owned();
        }
        let mut names: Vec<&'static str> = Vec::new();
        push_chosen(&mut names, self.contract, "contract");
        push_chosen(&mut names, self.reassoc, "reassoc");
        push_chosen(&mut names, self.nnan, "nnan");
        push_chosen(&mut names, self.ninf, "ninf");
        push_chosen(&mut names, self.nsz, "nsz");
        push_chosen(&mut names, self.arcp, "arcp");
        assert(texts_of(names@) =~= self.names());
        join(&names)
    }
}

/// What the strings of a list hold.
pub open spec fn texts_of(names: Seq<&'static str>) -> Seq<Seq<char>> {
    names.map_values(|n: &'static str| n@)
}

fn push_chosen(names: &mut Vec<&'static str>, set: bool, name: &'static str)
    ensures
        texts_of(final(names)@) == texts_of(old(names)@) + chosen(set, name@),
{
    let ghost before = names@;
    if set {
        names.push(name);
        assert(texts_of(names@) =~= texts_of(before) + seq![name@]);
    } else {
        assert(texts_of(names@) =~= texts_of(before) + Seq::<Seq<char>>::empty());
    }
}

fn join(names: &Vec<&'static str>) -> (s: String)
    ensures
        s@ == joined(texts_of(names@)),
{
    let ghost all = texts_of(names@);
    let mut s = String::new();
    let mut i: usize = names.len();
    assert(all.skip(i as int) =~= Seq::empty());
    assert(s@ =~= Seq::empty());
    while i > 0
        invariant
            i <= names.len(),
            all == texts_of(names@),
            s@ == joined(all.skip(i as int)),
        decreases i,
    {
        let last = i == names.len();
        i -= 1;
        proof {
            let rest = all.skip(i as int);
            assert(rest[0] == names@[i as int]@);
            assert(rest.skip(1) =~= all.skip(i + 1));
        }
        s = if last {
            names[i].to_owned()
        } else {
            cat3(names[i], ",", s.as_str())
        };
    }
    assert(all.skip(0) =~= all);
    s
}

/// Whether a text is one a list can hold: not empty, without commas and without
/// white space around it.
pub open spec fn is_plain(name: Seq<char>) -> bool {
    &&& name.len() > 0
    &&& !is_space(name[0])
    &&& !is_space(name.last())
    &&& forall|i: int| 0 <= i < name.len() ==> name[i] != ','
}

proof fn plain_names()
    ensures
        is_plain("contract"@) && "contract"@.len() > 1 && "contract"@[0] == 'c',
        is_plain("reassoc"@) && "reassoc"@.len() > 1 && "reassoc"@[0] == 'r',
        is_plain("nnan"@) && "nnan"@.len() > 1 && "nnan"@[1] == 'n',
        is_plain("ninf"@) && "ninf"@.len() > 1 && "ninf"@[1] == 'i' && "ninf"@[0] == 'n',
        is_plain("nsz"@) && "nsz"@.len() > 1 && "nsz"@[1] == 's' && "nsz"@.len() == 3,
        is_plain("arcp"@) && "arcp"@.len() > 1 && "arcp"@[0] == 'a',
        "nnan"@[0] == 'n',
        "nsz"@[0] == 'n',
        is_plain("none"@) && "none"@[0] == 'n' && "none"@[1] == 'o',
        is_plain("fast"@) && "fast"@[0] == 'f',
{
    reveal_strlit("contract");
    reveal_strlit("reassoc");
    reveal_strlit("nnan");
    reveal_strlit("ninf");
    reveal_strlit("nsz");
    reveal_strlit("arcp");
    reveal_strlit("none");
    reveal_strlit("fast");
}

/// The flags names name together, each beside those before it.
pub open spec fn folded(names: Seq<Seq<char>>, acc: FastMathFlags) -> Option<FastMathFlags>
    decreases names.len(),
{
    if names.len() == 0 {
        Some(acc)
    } else {
        match FastMathFlags::named(names[0]) {
            Some(flag) => folded(names.skip(1), acc.both(flag)),
            None => None,
        }
    }
}

proof fn joined_starts(names: Seq<Seq<char>>)
    requires
        names.len() > 0,
        forall|i: int| 0 <= i < names.len() ==> is_plain(#[trigger] names[i]),
    ensures
        joined(names).len() >= names[0].len(),
        joined(names).take(names[0].len() as int) == names[0],
        joined(names).last() == names.last().last(),
    decreases names.len(),
{
    assert(is_plain(names[0]));
    if names.len() > 1 {
        reveal_strlit(",");
        let rest = names.skip(1);
        assert forall|i: int| 0 <= i < rest.len() implies is_plain(#[trigger] rest[i]) by {
            assert(rest[i] == names[i + 1]);
        }
        joined_starts(rest);
        assert(is_plain(rest[0]));
        assert(rest.last() == names.last());
    }
    assert(joined(names).take(names[0].len() as int) =~= names[0]);
}

proof fn joined_is_listed(names: Seq<Seq<char>>, acc: FastMathFlags)
    requires
        names.len() > 0,
        forall|i: int| 0 <= i < names.len() ==> is_plain(#[trigger] names[i]),
    ensures
        FastMathFlags::listed(joined(names), acc) == folded(names, acc),
    decreases names.len(),
{
    let s = joined(names);
    let first = names[0];
    assert(is_plain(first));
    joined_starts(names);
    assert forall|i: int| 0 <= i < first.len() implies s[i] != ',' by {
        assert(s[i] == s.take(first.len() as int)[i]);
    }
    assert(trimmed(first) == first);
    if names.len() == 1 {
        comma_at(s, first.len() as int);
        assert(s.take(first.len() as int) =~= first);
        assert(names.skip(1).len() == 0);
        match FastMathFlags::named(first) {
            Some(flag) => {
                assert(folded(names.skip(1), acc.both(flag)) == Some(acc.both(flag)));
            },
            None => {},
        }
    } else {
        reveal_strlit(",");
        comma_at(s, first.len() as int);
        let rest = names.skip(1);
        assert(s.skip(first.len() as int + 1) =~= joined(rest));
        assert forall|i: int| 0 <= i < rest.len() implies is_plain(#[trigger] rest[i]) by {
            assert(rest[i] == names[i + 1]);
        }
        match FastMathFlags::named(first) {
            Some(flag) => {
                joined_is_listed(rest, acc.both(flag));
            },
            None => {},
        }
    }
}

proof fn chosen_are_folded(set: bool, name: Seq<char>, rest: Seq<Seq<char>>, acc: FastMathFlags)
    requires
        FastMathFlags::named(name) is Some,
    ensures
        folded(chosen(set, name) + rest, acc) == folded(
            rest,
            if set {
                acc.both(FastMathFlags::named(name)->0)
            } else {
                acc
            },
        ),
{
    if set {
        assert((chosen(set, name) + rest).skip(1) =~= rest);
        assert((chosen(set, name) + rest)[0] == name);
    } else {
        assert(chosen(set, name) + rest =~= rest);
    }
}

proof fn names_are_folded(f: FastMathFlags)
    ensures
        folded(f.names(), FastMathFlags::none_set()) == Some(f),
{
    reveal_strlit("contract");
    reveal_strlit("reassoc");
    reveal_strlit("nnan");
    reveal_strlit("ninf");
    reveal_strlit("nsz");
    reveal_strlit("arcp");
    plain_names();
    assert("ninf"@ != "nnan"@);
    let g = chosen(f.arcp, "arcp"@) + Seq::<Seq<char>>::empty();
    let e = chosen(f.nsz, "nsz"@) + g;
    let d = chosen(f.ninf, "ninf"@) + e;
    let c = chosen(f.nnan, "nnan"@) + d;
    let b = chosen(f.reassoc, "reassoc"@) + c;
    let a = chosen(f.contract, "contract"@) + b;
    assert(a =~= f.names());
    let none = FastMathFlags::none_set();
    let x = FastMathFlags { contract: f.contract, ..none };
    let y = FastMathFlags { reassoc: f.reassoc, ..x };
    let z = FastMathFlags { nnan: f.nnan, ..y };
    let u = FastMathFlags { ninf: f.ninf, ..z };
    let v = FastMathFlags { nsz: f.nsz, ..u };
    chosen_are_folded(f.contract, "contract"@, b, none);
    chosen_are_folded(f.reassoc, "reassoc"@, c, x);
    chosen_are_folded(f.nnan, "nnan"@, d, y);
    chosen_are_folded(f.ninf, "ninf"@, e, z);
    chosen_are_folded(f.nsz, "nsz"@, g, u);
    chosen_are_folded(f.arcp, "arcp"@, Seq::empty(), v);
}

/// Reading flags back from how they are written gives the same flags.
#[verifier::spinoff_prover]
#[verifier::rlimit(80)]
pub proof fn written_flags_are_read_back(f: FastMathFlags)
    ensures
        FastMathFlags::parsed(f.spelling()) == Some(f),
{
    plain_names();
    assert(trimmed("none"@) == "none"@);
    assert(trimmed("fast"@) == "fast"@);
    assert("none"@ != "fast"@);
    if f != FastMathFlags::none_set() && f != FastMathFlags::all_set() {
        let names = f.names();
        assert forall|i: int| 0 <= i < names.len() implies is_plain(#[trigger] names[i]) && (
        names[i][0] == 'n' ==> names[i][1] != 'o') && names[i][0] != 'f' && names[i].len() > 1 by {}
        assert(names.len() > 0);
        joined_starts(names);
        assert(is_plain(names[0]));
        assert(is_plain(names.last()));
        let s = joined(names);
        assert(s[0] == s.take(names[0].len() as int)[0]);
        assert(s[1] == s.take(names[0].len() as int)[1]);
        assert(trimmed(s) == s);
        assert(s != "none"@);
        assert(s != "fast"@);
        joined_is_listed(names, FastMathFlags::none_set());
        names_are_folded(f);
    }
}

/// A union contains both its parts, and nothing less does.
pub proof fn union_is_the_least(a: FastMathFlags, b: FastMathFlags, c: FastMathFlags)
    ensures
        a.both(b).both(a) == a.both(b),
        a.both(b).both(b) == a.both(b),
        c.both(a) == c && c.both(b) == c ==> c.both(a.both(b)) == c,
{
}

impl ContextView {
    /// What an attribute says of the flags, where it is a string. What names no
    /// flags is strict.
    pub open spec fn flags_said(attr: Option<AttrView>) -> Option<FastMathFlags> {
        match attr {
            Some(AttrView::Str(text)) => Some(
                match FastMathFlags::parsed(text) {
                    Some(flags) => flags,
                    None => FastMathFlags::none_set(),
                },
            ),
            _ => None,
        }
    }

    /// The operation whose region holds `block`.
    pub open spec fn block_owner(self, block: BlockId) -> Option<OpId> {
        match self.ir.block(block) {
            Some(b) => match b.parent {
                Some(region) => match self.ir.region(region) {
                    Some(r) => r.parent_op,
                    None => None,
                },
                None => None,
            },
            None => None,
        }
    }

    /// The block holding `op`.
    pub open spec fn block_holding(self, op: OpId) -> Option<BlockId> {
        match self.ir.op(op) {
            Some(o) => match o.parent {
                Some(Parent::Block(block)) => Some(block),
                _ => None,
            },
            None => None,
        }
    }

    /// The block holding the operation that owns the region of `block`.
    pub open spec fn block_around(self, block: BlockId) -> Option<BlockId> {
        match self.block_owner(block) {
            Some(owner) => self.block_holding(owner),
            None => None,
        }
    }

    /// Whether walking outwards from `block` ends within `n` blocks, every one
    /// of which is live.
    pub open spec fn scopes_end(self, block: Option<BlockId>, n: nat) -> bool
        decreases n,
    {
        match block {
            None => true,
            Some(b) => n > 0 && self.ir.block(b) is Some && self.scopes_end(
                self.block_around(b),
                (n - 1) as nat,
            ),
        }
    }

    /// The flags in effect in `block`: what the block says, else what the
    /// operation around it says, else what is in effect around that, looking at
    /// `n` blocks.
    pub open spec fn flags_in(self, block: Option<BlockId>, n: nat) -> FastMathFlags
        decreases n,
    {
        match block {
            None => FastMathFlags::none_set(),
            Some(b) => if n == 0 {
                FastMathFlags::none_set()
            } else {
                match ContextView::flags_said(self.block_attr(b, FPMATH_ATTR@)) {
                    Some(flags) => flags,
                    None => match self.block_owner(b) {
                        None => FastMathFlags::none_set(),
                        Some(owner) => match ContextView::flags_said(
                            self.attr(owner, FPMATH_ATTR@),
                        ) {
                            Some(flags) => flags,
                            None => self.flags_in(self.block_holding(owner), (n - 1) as nat),
                        },
                    },
                }
            },
        }
    }

    /// The flags in effect for `op`.
    pub open spec fn flags_for(self, op: OpId) -> FastMathFlags {
        self.flags_in(
            self.block_holding(op),
            choose|n: nat| self.scopes_end(self.block_holding(op), n),
        )
    }
}

fn flags_of(text: &str) -> (r: FastMathFlags)
    ensures
        Some(r) == ContextView::flags_said(Some(AttrView::Str(text@))),
{
    match FastMathFlags::parse(text) {
        Some(flags) => flags,
        None => FastMathFlags::none(),
    }
}

/// The fast-math flags in effect for `op`: the nearest `fpmath` attribute on the
/// enclosing chain of block, region-owning op, its block and so on, defaulting to
/// strict IEEE. A block attribute shadows the owning op's, so a relaxation (or
/// an opt-out back to `"none"`) can be scoped to a single block.
pub fn fp_math_flags(context: &Context, op: OpId) -> (r: FastMathFlags)
    requires
        context.inv(),
        exists|n: nat| context@.scopes_end(context@.block_holding(op), n),
    ensures
        r == context@.flags_for(op),
{
    let mut block = context.parent_block(op);
    let ghost view = context@;
    let ghost mut n: nat = choose|n: nat| view.scopes_end(view.block_holding(op), n);
    while block.is_some()
        invariant
            context.inv(),
            view == context@,
            view.scopes_end(block, n),
            view.flags_in(block, n) == view.flags_for(op),
        decreases n,
    {
        let id = block.unwrap();
        let attrs = &context.block_ref(id).attributes;
        if let Some(AttributeValue::Str(text)) = find_attribute(attrs, FPMATH_ATTR) {
            return flags_of(text.as_str());
        }
        let owner = match context.parent_region(id) {
            Some(region) => context.region_parent_op(region),
            None => None,
        };
        let owner = match owner {
            Some(owner) => owner,
            None => {
                return FastMathFlags::none();
            },
        };
        if let Some(text) = str_attr(context, owner, FPMATH_ATTR) {
            return flags_of(text.as_str());
        }
        block = context.parent_block(owner);
        proof {
            n = (n - 1) as nat;
        }
    }
    FastMathFlags::none()
}

/// A block that says what holds in it shadows everything around it.
pub proof fn block_flags_shadow(context: ContextView, op: OpId, block: BlockId, n: nat)
    requires
        context.block_holding(op) == Some(block),
        context.scopes_end(Some(block), n),
        ContextView::flags_said(context.block_attr(block, FPMATH_ATTR@)) is Some,
    ensures
        Some(context.flags_for(op)) == ContextView::flags_said(
            context.block_attr(block, FPMATH_ATTR@),
        ),
{
    assert(context.scopes_end(context.block_holding(op), n));
    let m = choose|m: nat| context.scopes_end(context.block_holding(op), m);
    assert(context.scopes_end(context.block_holding(op), m));
}

/// How many bits the binary spelling of `n` has.
pub open spec fn bit_length(n: nat) -> nat
    decreases n,
{
    if n == 0 {
        0
    } else {
        1 + bit_length(n / 2)
    }
}

/// How many bits a constant `n` is written with: at least one.
pub open spec fn constant_bits(n: u32) -> nat {
    if n == 0 {
        1
    } else {
        bit_length(n as nat)
    }
}

proof fn short_lengths(n: nat, k: nat)
    requires
        n < vstd::arithmetic::power2::pow2(k),
    ensures
        bit_length(n) <= k,
    decreases k,
{
    if n > 0 {
        if k == 0 {
            vstd::arithmetic::power2::lemma2_to64();
        } else {
            vstd::arithmetic::power2::lemma_pow2_unfold(k);
            short_lengths(n / 2, (k - 1) as nat);
        }
    }
}

/// Adds a constant leaf that holds `value`, as wide as it needs.
pub fn add_constant<G: MutDag<Node = SymKind, Leaf = SymPayload>>(g: &mut G, value: u32) -> (id:
    NodeId)
    requires
        old(g).wf(),
        old(g).dag().nodes.len() < u32::MAX,
    ensures
        final(g).wf(),
        id.0 == old(g).dag().nodes.len(),
        final(g).dag() == with_leaf(
            old(g).dag(),
            SymKind::Constant,
            SymPayload::Int(constant_bits(value) as u32, value as u64),
        ),
{
    proof {
        vstd::arithmetic::power2::lemma2_to64();
        short_lengths(value as nat, 32);
    }
    let mut width: u32 = 0;
    let mut left: u32 = value;
    while left > 0
        invariant
            width + bit_length(left as nat) == bit_length(value as nat),
            bit_length(value as nat) <= 32,
        decreases left,
    {
        left = left / 2;
        width += 1;
    }
    if value == 0 {
        width = 1;
    }
    add_leaf(g, SymKind::Constant, SymPayload::Int(width, value as u64))
}

/// Adds the number of exponent bits of a format a conversion produces.
pub fn float_exponent<G: MutDag<Node = SymKind, Leaf = SymPayload>>(g: &mut G, ty: &FloatType) -> (id:
    NodeId)
    requires
        old(g).wf(),
        old(g).dag().nodes.len() < u32::MAX,
    ensures
        final(g).wf(),
        id.0 == old(g).dag().nodes.len(),
        final(g).dag() == with_leaf(
            old(g).dag(),
            SymKind::Constant,
            SymPayload::Int(constant_bits(ty.exponent) as u32, ty.exponent as u64),
        ),
{
    add_constant(g, ty.exp_width())
}

/// Adds the number of mantissa bits of a format a conversion produces.
pub fn float_mantissa<G: MutDag<Node = SymKind, Leaf = SymPayload>>(g: &mut G, ty: &FloatType) -> (id:
    NodeId)
    requires
        old(g).wf(),
        old(g).dag().nodes.len() < u32::MAX,
    ensures
        final(g).wf(),
        id.0 == old(g).dag().nodes.len(),
        final(g).dag() == with_leaf(
            old(g).dag(),
            SymKind::Constant,
            SymPayload::Int(constant_bits(ty.mantissa) as u32, ty.mantissa as u64),
        ),
{
    add_constant(g, ty.mant_width())
}

/// Builds a comparison of two floating-point values.
pub struct CmpFOpBuilder(pub OpBuilder);

impl CmpFOpBuilder {
    /// With the comparison to make.
    pub fn predicate(self, predicate: &str) -> (r: Self)
        ensures
            r.0@ == self.0@.with_attr("predicate"@, AttrView::Str(predicate@)),
    {
        CmpFOpBuilder(self.0.attr("predicate", AttributeValue::Str(predicate.to_owned())))
    }
}

} // verus!
