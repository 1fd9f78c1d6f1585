//! The text a printer builds: indentation, block numbers and attribute aliases.
use vstd::prelude::*;
use vstd::string::*;
use crate::attributes::AttrView;
use crate::attributes::AttributeValue;
use crate::ids::BlockId;
use crate::text::ends_line;
use crate::text::ends_with_newline;

verus! {

/// Builds the text of an IR line by line.
pub struct IRFormatter {
    text: String,
    padding: u8,
    new_line: bool,
    region_block_numbers: Vec<Vec<(BlockId, u32)>>,
    /// Attribute values printed as `#name` because the file defines an alias for
    /// them.
    attribute_aliases: Vec<(String, AttributeValue)>,
}

/// What a formatter has built and how it goes on.
pub ghost struct FormatView {
    pub text: Seq<char>,
    pub padding: nat,
    pub new_line: bool,
    pub numbers: Seq<Seq<(BlockId, u32)>>,
    pub aliases: Seq<(Seq<char>, AttrView)>,
}

/// The lead of a line that is `padding` steps in.
pub open spec fn indent(padding: nat) -> Seq<char>
    decreases padding,
{
    if padding == 0 {
        Seq::empty()
    } else {
        indent((padding - 1) as nat) + "  "@
    }
}

/// The number a list gives a block.
pub open spec fn number_in(numbers: Seq<(BlockId, u32)>, block: BlockId) -> Option<u32>
    decreases numbers.len(),
{
    if numbers.len() == 0 {
        None
    } else if numbers[0].0 == block {
        Some(numbers[0].1)
    } else {
        number_in(numbers.skip(1), block)
    }
}

/// The first alias that stands for `value`.
pub open spec fn alias_of(aliases: Seq<(Seq<char>, AttrView)>, value: AttrView) -> Option<Seq<char>>
    decreases aliases.len(),
{
    if aliases.len() == 0 {
        None
    } else if aliases[0].1 == value {
        Some(aliases[0].0)
    } else {
        alias_of(aliases.skip(1), value)
    }
}

impl FormatView {
    /// What leads the next piece of text.
    pub open spec fn lead(self) -> Seq<char> {
        if self.new_line {
            indent(self.padding)
        } else {
            Seq::empty()
        }
    }

    /// After `s` was written.
    pub open spec fn written(self, s: Seq<char>) -> Self {
        FormatView { text: self.text + self.lead() + s, new_line: ends_line(s), ..self }
    }

    /// After `s` was written as the rest of a line.
    pub open spec fn line_written(self, s: Seq<char>) -> Self {
        FormatView { text: self.text + self.lead() + s + "\n"@, new_line: true, ..self }
    }

    /// The number a block of the innermost region is printed with.
    pub open spec fn block_number(self, block: BlockId) -> u32 {
        if self.numbers.len() == 0 {
            block.0
        } else {
            match number_in(self.numbers.last(), block) {
                Some(n) => n,
                None => block.0,
            }
        }
    }
}

/// Writing within a line can be done in pieces.
pub proof fn pieces_make_one_text(f: FormatView, a: Seq<char>, b: Seq<char>)
    requires
        !ends_line(a),
    ensures
        f.written(a).written(b) == f.written(a + b),
{
    let one = f.written(a + b);
    let two = f.written(a).written(b);
    assert(two.text =~= one.text);
    if b.len() > 0 {
        assert((a + b).last() == b.last());
    } else {
        assert(a + b =~= a);
    }
}

spec fn alias_views(aliases: Seq<(String, AttributeValue)>) -> Seq<(Seq<char>, AttrView)> {
    aliases.map_values(|a: (String, AttributeValue)| (a.0@, a.1@))
}

impl View for IRFormatter {
    type V = FormatView;

    closed spec fn view(&self) -> FormatView {
        FormatView {
            text: self.text@,
            padding: self.padding as nat,
            new_line: self.new_line,
            numbers: self.region_block_numbers@.map_values(|n: Vec<(BlockId, u32)>| n@),
            aliases: alias_views(self.attribute_aliases@),
        }
    }
}

impl IRFormatter {
    /// A formatter that has written nothing.
    pub fn new() -> (f: Self)
        ensures
            f@.text == Seq::<char>::empty(),
            f@.padding == 0,
            f@.new_line,
            f@.numbers.len() == 0,
            f@.aliases.len() == 0,
    {
        IRFormatter {
            text: String::new(),
            padding: 0,
            new_line: true,
            region_block_numbers: Vec::new(),
            attribute_aliases: Vec::new(),
        }
    }

    /// What was written.
    pub fn text(&self) -> (s: &str)
        ensures
            s@ == self@.text,
    {
        self.text.as_str()
    }

    /// Whether the next piece of text starts a line.
    pub fn at_line_start(&self) -> (r: bool)
        ensures
            r == self@.new_line,
    {
        self.new_line
    }

    /// Names the attribute values that are printed by an alias.
    pub fn set_attribute_aliases(&mut self, aliases: Vec<(String, AttributeValue)>)
        ensures
            final(self)@ == (FormatView {
                aliases: aliases@.map_values(|a: (String, AttributeValue)| (a.0@, a.1@)),
                ..old(self)@
            }),
    {
        self.attribute_aliases = aliases;
    }

    /// The alias standing in for `value`, if the file defines one.
    pub fn attribute_alias(&self, value: &AttributeValue) -> (r: Option<&str>)
        ensures
            match r {
                Some(name) => alias_of(self@.aliases, value@) == Some(name@),
                None => alias_of(self@.aliases, value@) is None,
            },
    {
        let ghost all = self@.aliases;
        assert(all.skip(0) =~= all);
        let mut i: usize = 0;
        while i < self.attribute_aliases.len()
            invariant
                i <= self.attribute_aliases.len(),
                all == self@.aliases,
                all.len() == self.attribute_aliases.len(),
                alias_of(all, value@) == alias_of(all.skip(i as int), value@),
            decreases self.attribute_aliases.len() - i,
        {
            let ghost rest = all.skip(i as int);
            assert(rest[0] == all[i as int]);
            assert(rest.skip(1) =~= all.skip(i + 1));
            assert(all[i as int] == (
                self.attribute_aliases@[i as int].0@,
                self.attribute_aliases@[i as int].1@,
            ));
            if self.attribute_aliases[i].1.equals(value) {
                return Some(self.attribute_aliases[i].0.as_str());
            }
            i += 1;
        }
        assert(all.skip(i as int).len() == 0);
        None
    }

    /// Numbers the blocks of the region whose printing begins.
    pub fn push_region_block_numbers(&mut self, numbers: Vec<(BlockId, u32)>)
        ensures
            final(self)@ == (FormatView {
                numbers: old(self)@.numbers.push(numbers@),
                ..old(self)@
            }),
    {
        let ghost before = self@;
        let ghost added = numbers@;
        self.region_block_numbers.push(numbers);
        assert(self@.numbers =~= before.numbers.push(added));
    }

    /// Forgets the numbers of the region whose printing ends.
    pub fn pop_region_block_numbers(&mut self)
        ensures
            final(self)@ == (FormatView {
                numbers: if old(self)@.numbers.len() > 0 {
                    old(self)@.numbers.drop_last()
                } else {
                    old(self)@.numbers
                },
                ..old(self)@
            }),
    {
        let ghost before = self@;
        let _ = self.region_block_numbers.pop();
        assert(self@.numbers =~= if before.numbers.len() > 0 {
            before.numbers.drop_last()
        } else {
            before.numbers
        });
    }

    /// The number a block of the innermost region is printed with.
    pub fn region_block_number(&self, block: BlockId) -> (n: u32)
        ensures
            n == self@.block_number(block),
    {
        let depth: usize = self.region_block_numbers.len();
        if depth == 0 {
            return block.0;
        }
        let numbers = &self.region_block_numbers[depth - 1];
        assert(self@.numbers.last() == numbers@);
        assert(numbers@.skip(0) =~= numbers@);
        let mut i: usize = 0;
        while i < numbers.len()
            invariant
                i <= numbers.len(),
                self@.numbers.len() > 0,
                self@.numbers.last() == numbers@,
                number_in(numbers@, block) == number_in(numbers@.skip(i as int), block),
            decreases numbers.len() - i,
        {
            assert(numbers@.skip(i as int)[0] == numbers@[i as int]);
            assert(numbers@.skip(i as int).skip(1) =~= numbers@.skip(i + 1));
            if numbers[i].0 == block {
                return numbers[i].1;
            }
            i += 1;
        }
        assert(numbers@.skip(i as int).len() == 0);
        block.0
    }

    /// Indents the lines that follow one step further.
    pub fn push(&mut self)
        requires
            old(self)@.padding < u8::MAX,
        ensures
            final(self)@ == (FormatView { padding: old(self)@.padding + 1, ..old(self)@ }),
    {
        self.padding = self.padding + 1;
    }

    /// Indents the lines that follow one step less.
    pub fn pop(&mut self)
        requires
            old(self)@.padding > 0,
        ensures
            final(self)@ == (FormatView {
                padding: (old(self)@.padding - 1) as nat,
                ..old(self)@
            }),
    {
        self.padding = self.padding - 1;
    }

    fn write_lead(&mut self)
        ensures
            final(self)@ == (FormatView { text: old(self)@.text + old(self)@.lead(), ..old(self)@ }),
    {
        let ghost before = self@;
        if self.new_line {
            let mut i: u8 = 0;
            assert(self.text@ =~= before.text + indent(0));
            while i < self.padding
                invariant
                    i <= self.padding,
                    self@ == (FormatView { text: before.text + indent(i as nat), ..before }),
                decreases self.padding - i,
            {
                let ghost here = self@;
                self.text.append("  ");
                i += 1;
                assert(self.text@ =~= before.text + indent(i as nat));
            }
        } else {
            assert(self.text@ =~= before.text + Seq::<char>::empty());
        }
    }

    /// Writes `s` and ends the line.
    pub fn writeln(&mut self, s: &str)
        ensures
            final(self)@ == old(self)@.line_written(s@),
    {
        self.write_lead();
        self.text.append(s);
        self.new_line = true;
        self.text.append("\n");
    }

    /// Writes `s`, which starts a line where the last text ended one.
    pub fn write(&mut self, s: &str)
        ensures
            final(self)@ == old(self)@.written(s@),
    {
        self.write_lead();
        self.new_line = ends_with_newline(s);
        self.text.append(s);
    }
}

} // verus!
