//! A reader of the text form: a position in the text and what can be read there.
use vstd::prelude::*;
use vstd::string::*;
use crate::dialects::builtin::float::is_space;
use crate::dialects::builtin::float::space;
use crate::error::Error;
use crate::error::ErrorView;
use crate::parse::reads;
use crate::parse::ParseResult;
use crate::parse::Parsed;
use crate::parse::ParserView;
use crate::parse::Span;
use crate::text::decimal;
use crate::text::digit;

verus! {

/// Whether `c` can stand in a name.
pub open spec fn is_name(c: char) -> bool {
    'a' <= c <= 'z' || 'A' <= c <= 'Z' || '0' <= c <= '9' || c == '_'
}

/// Whether `c` is a decimal digit.
pub open spec fn is_digit(c: char) -> bool {
    '0' <= c <= '9'
}

/// The first position from `pos` on that holds no white space.
pub open spec fn skipped(text: Seq<char>, pos: int) -> int
    decreases text.len() - pos,
{
    if 0 <= pos < text.len() && is_space(text[pos]) {
        skipped(text, pos + 1)
    } else {
        pos
    }
}

/// The first position from `pos` on that holds nothing of a name.
pub open spec fn name_end(text: Seq<char>, pos: int) -> int
    decreases text.len() - pos,
{
    if 0 <= pos < text.len() && is_name(text[pos]) {
        name_end(text, pos + 1)
    } else {
        pos
    }
}

/// The first position from `pos` on that holds no digit.
pub open spec fn digits_end(text: Seq<char>, pos: int) -> int
    decreases text.len() - pos,
{
    if 0 <= pos < text.len() && is_digit(text[pos]) {
        digits_end(text, pos + 1)
    } else {
        pos
    }
}

/// The number a row of digits spells.
pub open spec fn number_of(digits: Seq<char>) -> nat
    decreases digits.len(),
{
    if digits.len() == 0 {
        0
    } else {
        number_of(digits.drop_last()) * 10 + (digits.last() as nat - 48) as nat
    }
}

/// The character that comes next.
pub open spec fn peeked(text: Seq<char>, pos: int) -> Option<char> {
    let p = skipped(text, pos);
    if p < text.len() {
        Some(text[p])
    } else {
        None
    }
}

/// Where `token` ends, where it comes next.
pub open spec fn token_at(text: Seq<char>, pos: int, token: Seq<char>) -> Option<int> {
    let p = skipped(text, pos);
    if p + token.len() <= text.len() && text.subrange(p, p + token.len()) == token {
        Some(p + token.len())
    } else {
        None
    }
}

/// The position behind `token` where it comes next, else the same position.
pub open spec fn past(text: Seq<char>, pos: int, token: Seq<char>) -> int {
    match token_at(text, pos, token) {
        Some(end) => end,
        None => pos,
    }
}

/// The position behind `token`, which has to come next.
pub open spec fn expected(text: Seq<char>, pos: int, token: Seq<char>) -> Parsed<()> {
    match token_at(text, pos, token) {
        Some(end) => Ok(((), end)),
        None => Err((pos, ErrorView::ExpectedToken(token))),
    }
}

/// The name behind `sigil`, where one comes next, and where it ends.
pub open spec fn sigil_at(text: Seq<char>, pos: int, sigil: char) -> Option<(Seq<char>, int)> {
    let p = skipped(text, pos);
    if p < text.len() && text[p] == sigil && name_end(text, p + 1) > p + 1 {
        Some((text.subrange(p + 1, name_end(text, p + 1)), name_end(text, p + 1)))
    } else {
        None
    }
}

/// The word that comes next and where it ends.
pub open spec fn word_at(text: Seq<char>, pos: int) -> Option<(Seq<char>, int)> {
    let p = skipped(text, pos);
    if name_end(text, p) > p {
        Some((text.subrange(p, name_end(text, p)), name_end(text, p)))
    } else {
        None
    }
}

/// The number that comes next, where it fits 64 bits with its sign, and where it
/// ends.
pub open spec fn number_at(text: Seq<char>, pos: int) -> Option<(int, int)> {
    let p = skipped(text, pos);
    let negative = p < text.len() && text[p] == '-';
    let from = if negative {
        p + 1
    } else {
        p
    };
    let end = digits_end(text, from);
    let magnitude = number_of(text.subrange(from, end));
    if end == from {
        None
    } else if negative && magnitude <= 0x8000_0000_0000_0000 {
        Some((-magnitude, end))
    } else if !negative && magnitude < 0x8000_0000_0000_0000 {
        Some((magnitude as int, end))
    } else {
        None
    }
}

/// The name behind `%`, which has to come next.
pub open spec fn value_ref(text: Seq<char>, pos: int) -> Parsed<Seq<char>> {
    match sigil_at(text, pos, '%') {
        Some((name, end)) => Ok((name, end)),
        None => Err((pos, ErrorView::ExpectedValueRef)),
    }
}

/// The name behind `@`, which has to come next.
pub open spec fn symbol_name(text: Seq<char>, pos: int) -> Parsed<Seq<char>> {
    match sigil_at(text, pos, '@') {
        Some((name, end)) => Ok((name, end)),
        None => Err((pos, ErrorView::ExpectedSymbolName)),
    }
}

/// Where the string that begins at `pos`, behind its opening quote, ends: the
/// position of the next quote.
pub open spec fn quote_end(text: Seq<char>, pos: int) -> Option<int>
    decreases text.len() - pos,
{
    if !(0 <= pos < text.len()) {
        None
    } else if text[pos] == '"' {
        Some(pos)
    } else {
        quote_end(text, pos + 1)
    }
}

/// Where `depth` open braces are closed again from `pos` on, braces in strings
/// left aside: the position of the last closing brace.
pub open spec fn brace_end(text: Seq<char>, pos: int, depth: nat) -> Option<int>
    decreases text.len() - pos,
{
    if !(0 <= pos < text.len()) {
        None
    } else if text[pos] == '"' {
        match quote_end(text, pos + 1) {
            Some(end) => if !(pos < end < text.len()) {
                None
            } else {
                brace_end(text, end + 1, depth)
            },
            None => None,
        }
    } else if text[pos] == '{' {
        brace_end(text, pos + 1, depth + 1)
    } else if text[pos] == '}' {
        if depth <= 1 {
            Some(pos)
        } else {
            brace_end(text, pos + 1, (depth - 1) as nat)
        }
    } else {
        brace_end(text, pos + 1, depth)
    }
}

/// The stretch between the braces of the region that has to come next.
pub open spec fn region_at(text: Seq<char>, pos: int) -> Parsed<(int, int)> {
    match token_at(text, pos, "{"@) {
        Some(start) => match brace_end(text, start, 1) {
            Some(end) => Ok(((start, end), end + 1)),
            None => Err((start, ErrorView::ExpectedToken("}"@))),
        },
        None => Err((pos, ErrorView::ExpectedToken("{"@))),
    }
}

/// A row of digits followed by more of them spells no smaller a number.
proof fn number_grows(digits: Seq<char>, n: int)
    requires
        0 <= n <= digits.len(),
    ensures
        number_of(digits.take(n)) <= number_of(digits),
    decreases digits.len() - n,
{
    if n < digits.len() {
        number_grows(digits.drop_last(), n);
        assert(digits.drop_last().take(n) =~= digits.take(n));
    } else {
        assert(digits.take(n) =~= digits);
    }
}

/// A reader of a text.
pub struct Parser {
    source: String,
    text: Vec<char>,
    pos: usize,
}

impl View for Parser {
    type V = ParserView;

    closed spec fn view(&self) -> ParserView {
        ParserView { text: self.text@, pos: self.pos as int }
    }
}

impl Parser {
    #[verifier::type_invariant]
    spec fn holds_source(self) -> bool {
        self.source@ == self.text@
    }

    /// A reader at the start of `source`.
    pub fn new(source: &str) -> (r: Self)
        ensures
            r@ == (ParserView { text: source@, pos: 0 }),
            r@.wf(),
    {
        let mut text: Vec<char> = Vec::new();
        let n: usize = source.unicode_len();
        let mut i: usize = 0;
        while i < n
            invariant
                i <= n,
                n == source@.len(),
                text@ == source@.take(i as int),
            decreases n - i,
        {
            text.push(source.get_char(i));
            assert(text@ =~= source@.take(i + 1));
            i += 1;
        }
        assert(text@ =~= source@);
        Parser { source: source.to_owned(), text, pos: 0 }
    }

    /// Where the reader stands.
    pub fn pos(&self) -> (r: usize)
        requires
            self@.wf(),
        ensures
            r == self@.pos,
    {
        self.pos
    }

    /// Puts the reader at `pos`.
    pub fn set_pos(&mut self, pos: usize)
        requires
            old(self)@.wf(),
            pos <= old(self)@.text.len(),
        ensures
            final(self)@ == old(self)@.at(pos as int),
    {
        proof {
            use_type_invariant(&*self);
        }
        self.pos = pos;
    }

    /// The empty stretch where the reader stands.
    pub fn span(&self) -> (r: Span)
        requires
            self@.wf(),
        ensures
            r == (Span { start: self@.pos as usize, end: self@.pos as usize }),
    {
        Span { start: self.pos, end: self.pos }
    }

    fn skip(&self) -> (p: usize)
        requires
            self@.wf(),
        ensures
            p == skipped(self@.text, self@.pos),
            self@.pos <= p <= self@.text.len(),
    {
        let mut p: usize = self.pos;
        while p < self.text.len() && space(self.text[p])
            invariant
                self@.pos <= p <= self.text.len(),
                self@.text == self.text@,
                skipped(self@.text, p as int) == skipped(self@.text, self@.pos),
            decreases self.text.len() - p,
        {
            p += 1;
        }
        p
    }

    /// The character that comes next.
    pub fn peek_char(&self) -> (r: Option<char>)
        requires
            self@.wf(),
        ensures
            r == peeked(self@.text, self@.pos),
    {
        let p: usize = self.skip();
        if p < self.text.len() {
            Some(self.text[p])
        } else {
            None
        }
    }

    fn holds_at(&self, p: usize, token: &str) -> (r: bool)
        requires
            p <= self@.text.len(),
        ensures
            r == (p + token@.len() <= self@.text.len() && self@.text.subrange(
                p as int,
                p + token@.len(),
            ) == token@),
    {
        let n: usize = token.unicode_len();
        if n > self.text.len() - p {
            return false;
        }
        let mut i: usize = 0;
        while i < n
            invariant
                i <= n,
                n == token@.len(),
                p + n <= self.text.len(),
                self@.text == self.text@,
                forall|k: int| 0 <= k < i ==> #[trigger] token@[k] == self@.text[p + k],
            decreases n - i,
        {
            if self.text[p + i] != token.get_char(i) {
                assert(self@.text.subrange(p as int, p + n)[i as int] != token@[i as int]);
                return false;
            }
            i += 1;
        }
        assert(self@.text.subrange(p as int, p + n) =~= token@);
        true
    }

    /// Steps over `token` where it comes next, and tells whether it did.
    pub fn parse_token(&mut self, token: &str) -> (r: bool)
        requires
            old(self)@.wf(),
        ensures
            r == token_at(old(self)@.text, old(self)@.pos, token@) is Some,
            final(self)@ == old(self)@.at(past(old(self)@.text, old(self)@.pos, token@)),
            final(self)@.wf(),
            final(self)@.pos >= old(self)@.pos,
            r && token@.len() > 0 ==> final(self)@.pos > old(self)@.pos,
    {
        let p: usize = self.skip();
        if self.holds_at(p, token) {
            self.set_pos(p + token.unicode_len());
            true
        } else {
            false
        }
    }

    /// Steps over `token`, which has to come next.
    pub fn expect(&mut self, token: &'static str) -> (r: ParseResult<()>)
        requires
            old(self)@.wf(),
        ensures
            reads(
                r,
                old(self)@,
                final(self)@,
                expected(old(self)@.text, old(self)@.pos, token@),
                |u: ()| u,
            ),
            final(self)@.wf(),
            final(self)@.pos >= old(self)@.pos,
            r is Ok && token@.len() > 0 ==> final(self)@.pos > old(self)@.pos,
    {
        if self.parse_token(token) {
            Ok(())
        } else {
            Err((self.span(), Error::ExpectedToken(token)))
        }
    }

    fn name_to(&self, from: usize) -> (e: usize)
        requires
            from <= self@.text.len(),
        ensures
            e == name_end(self@.text, from as int),
            from <= e <= self@.text.len(),
    {
        let mut e: usize = from;
        while e < self.text.len() && name_char(self.text[e])
            invariant
                from <= e <= self.text.len(),
                self@.text == self.text@,
                name_end(self@.text, e as int) == name_end(self@.text, from as int),
            decreases self.text.len() - e,
        {
            e += 1;
        }
        e
    }

    /// The characters from `from` up to `to`.
    pub fn piece(&self, from: usize, to: usize) -> (s: String)
        requires
            self@.wf(),
            from <= to <= self@.text.len(),
        ensures
            s@ == self@.text.subrange(from as int, to as int),
    {
        proof {
            use_type_invariant(self);
        }
        self.source.as_str().substring_char(from, to).to_owned()
    }

    fn parse_sigil(&mut self, sigil: char) -> (r: Option<String>)
        requires
            old(self)@.wf(),
        ensures
            match sigil_at(old(self)@.text, old(self)@.pos, sigil) {
                Some((name, end)) => r is Some && r->0@ == name && final(self)@ == old(self)@.at(
                    end,
                ) && end > old(self)@.pos,
                None => r is None && final(self)@ == old(self)@,
            },
            final(self)@.wf(),
    {
        let p: usize = self.skip();
        if p < self.text.len() && self.text[p] == sigil {
            let e: usize = self.name_to(p + 1);
            if e > p + 1 {
                let name = self.piece(p + 1, e);
                self.set_pos(e);
                return Some(name);
            }
        }
        None
    }

    /// The name behind `%`, where one comes next.
    pub fn parse_value_ref(&mut self) -> (r: Option<String>)
        requires
            old(self)@.wf(),
        ensures
            match sigil_at(old(self)@.text, old(self)@.pos, '%') {
                Some((name, end)) => r is Some && r->0@ == name && final(self)@ == old(self)@.at(
                    end,
                ) && end > old(self)@.pos,
                None => r is None && final(self)@ == old(self)@,
            },
            final(self)@.wf(),
    {
        self.parse_sigil('%')
    }

    /// The name behind `@`, where one comes next.
    pub fn parse_symbol_name(&mut self) -> (r: Option<String>)
        requires
            old(self)@.wf(),
        ensures
            match sigil_at(old(self)@.text, old(self)@.pos, '@') {
                Some((name, end)) => r is Some && r->0@ == name && final(self)@ == old(self)@.at(
                    end,
                ) && end > old(self)@.pos,
                None => r is None && final(self)@ == old(self)@,
            },
            final(self)@.wf(),
    {
        self.parse_sigil('@')
    }

    /// The name behind `^`, where one comes next.
    pub fn parse_block_label(&mut self) -> (r: Option<String>)
        requires
            old(self)@.wf(),
        ensures
            match sigil_at(old(self)@.text, old(self)@.pos, '^') {
                Some((name, end)) => r is Some && r->0@ == name && final(self)@ == old(self)@.at(
                    end,
                ) && end > old(self)@.pos,
                None => r is None && final(self)@ == old(self)@,
            },
            final(self)@.wf(),
    {
        self.parse_sigil('^')
    }

    /// The name behind `!`, where one comes next.
    pub fn parse_type_name(&mut self) -> (r: Option<String>)
        requires
            old(self)@.wf(),
        ensures
            match sigil_at(old(self)@.text, old(self)@.pos, '!') {
                Some((name, end)) => r is Some && r->0@ == name && final(self)@ == old(self)@.at(
                    end,
                ) && end > old(self)@.pos,
                None => r is None && final(self)@ == old(self)@,
            },
            final(self)@.wf(),
    {
        self.parse_sigil('!')
    }

    /// The name behind `.`, where one comes next.
    pub fn parse_dotted(&mut self) -> (r: Option<String>)
        requires
            old(self)@.wf(),
        ensures
            match sigil_at(old(self)@.text, old(self)@.pos, '.') {
                Some((name, end)) => r is Some && r->0@ == name && final(self)@ == old(self)@.at(
                    end,
                ) && end > old(self)@.pos,
                None => r is None && final(self)@ == old(self)@,
            },
            final(self)@.wf(),
    {
        self.parse_sigil('.')
    }

    /// The name behind `%`, which has to come next.
    pub fn expect_value_ref(&mut self) -> (r: ParseResult<String>)
        requires
            old(self)@.wf(),
        ensures
            reads(
                r,
                old(self)@,
                final(self)@,
                value_ref(old(self)@.text, old(self)@.pos),
                |s: String| s@,
            ),
            final(self)@.wf(),
            final(self)@.pos >= old(self)@.pos,
            r is Ok ==> final(self)@.pos > old(self)@.pos,
    {
        match self.parse_value_ref() {
            Some(name) => Ok(name),
            None => Err((self.span(), Error::ExpectedValueRef)),
        }
    }

    /// The name behind `@`, which has to come next.
    pub fn expect_symbol_name(&mut self) -> (r: ParseResult<String>)
        requires
            old(self)@.wf(),
        ensures
            reads(
                r,
                old(self)@,
                final(self)@,
                symbol_name(old(self)@.text, old(self)@.pos),
                |s: String| s@,
            ),
            final(self)@.wf(),
            final(self)@.pos >= old(self)@.pos,
            r is Ok ==> final(self)@.pos > old(self)@.pos,
    {
        match self.parse_symbol_name() {
            Some(name) => Ok(name),
            None => Err((self.span(), Error::ExpectedSymbolName)),
        }
    }

    /// The word that comes next.
    pub fn parse_ident(&mut self) -> (r: Option<String>)
        requires
            old(self)@.wf(),
        ensures
            match word_at(old(self)@.text, old(self)@.pos) {
                Some((name, end)) => r is Some && r->0@ == name && final(self)@ == old(self)@.at(
                    end,
                ) && end > old(self)@.pos,
                None => r is None && final(self)@ == old(self)@,
            },
            final(self)@.wf(),
    {
        let p: usize = self.skip();
        let e: usize = self.name_to(p);
        if e > p {
            let name = self.piece(p, e);
            self.set_pos(e);
            return Some(name);
        }
        None
    }

    fn digits_to(&self, from: usize) -> (e: usize)
        requires
            from <= self@.text.len(),
        ensures
            e == digits_end(self@.text, from as int),
            from <= e <= self@.text.len(),
            forall|k: int| from <= k < e ==> is_digit(#[trigger] self@.text[k]),
    {
        let mut e: usize = from;
        while e < self.text.len() && '0' <= self.text[e] && self.text[e] <= '9'
            invariant
                from <= e <= self.text.len(),
                self@.text == self.text@,
                digits_end(self@.text, e as int) == digits_end(self@.text, from as int),
                forall|k: int| from <= k < e ==> is_digit(#[trigger] self@.text[k]),
            decreases self.text.len() - e,
        {
            e += 1;
        }
        e
    }

    /// The number the digits from `from` up to `to` spell, where 64 bits hold it.
    fn magnitude(&self, from: usize, to: usize) -> (r: Option<u64>)
        requires
            from <= to <= self@.text.len(),
            forall|k: int| from <= k < to ==> is_digit(#[trigger] self@.text[k]),
        ensures
            ({
                let n = number_of(self@.text.subrange(from as int, to as int));
                r == if n <= u64::MAX {
                    Some(n as u64)
                } else {
                    None
                }
            }),
    {
        let ghost digits = self@.text.subrange(from as int, to as int);
        let mut n: u64 = 0;
        let mut i: usize = from;
        assert(digits.take(0) =~= Seq::<char>::empty());
        while i < to
            invariant
                from <= i <= to <= self.text.len(),
                self@.text == self.text@,
                digits == self@.text.subrange(from as int, to as int),
                forall|k: int| from <= k < to ==> is_digit(#[trigger] self@.text[k]),
                n == number_of(digits.take(i - from)),
            decreases to - i,
        {
            let c: char = self.text[i];
            assert(is_digit(self@.text[i as int]));
            let d: u32 = c as u32 - 48;
            assert(digits.take(i - from + 1).drop_last() =~= digits.take(i - from));
            assert(digits.take(i - from + 1).last() == c);
            proof {
                number_grows(digits, i - from + 1);
            }
            if n > (u64::MAX - d as u64) / 10 {
                assert(n * 10 + d > u64::MAX);
                return None;
            }
            n = n * 10 + d as u64;
            i += 1;
        }
        assert(digits.take(to - from) =~= digits);
        Some(n)
    }

    /// The number that comes next, where one does.
    pub fn parse_number(&mut self) -> (r: Option<i64>)
        requires
            old(self)@.wf(),
        ensures
            match number_at(old(self)@.text, old(self)@.pos) {
                Some((n, end)) => r is Some && r->0 == n && final(self)@ == old(self)@.at(end)
                    && end > old(self)@.pos,
                None => r is None && final(self)@ == old(self)@,
            },
            final(self)@.wf(),
    {
        let p: usize = self.skip();
        let negative = p < self.text.len() && self.text[p] == '-';
        let from: usize = if negative {
            p + 1
        } else {
            p
        };
        let end: usize = self.digits_to(from);
        if end == from {
            return None;
        }
        match self.magnitude(from, end) {
            Some(n) => {
                if negative && n <= 0x8000_0000_0000_0000 {
                    self.set_pos(end);
                    if n == 0x8000_0000_0000_0000 {
                        Some(i64::MIN)
                    } else {
                        Some(-(n as i64))
                    }
                } else if !negative && n < 0x8000_0000_0000_0000 {
                    self.set_pos(end);
                    Some(n as i64)
                } else {
                    None
                }
            },
            None => None,
        }
    }

    /// Where the string that begins at `from`, behind its opening quote, ends.
    pub fn quote_to(&self, from: usize) -> (r: Option<usize>)
        requires
            from <= self@.text.len(),
        ensures
            match quote_end(self@.text, from as int) {
                Some(e) => r is Some && r->0 == e && from <= e < self@.text.len(),
                None => r is None,
            },
    {
        let mut e: usize = from;
        while e < self.text.len() && self.text[e] != '"'
            invariant
                from <= e <= self.text.len(),
                self@.text == self.text@,
                quote_end(self@.text, e as int) == quote_end(self@.text, from as int),
            decreases self.text.len() - e,
        {
            e += 1;
        }
        if e < self.text.len() {
            Some(e)
        } else {
            None
        }
    }

    fn brace_to(&self, from: usize) -> (r: Option<usize>)
        requires
            1 <= from <= self@.text.len() <= usize::MAX,
        ensures
            match brace_end(self@.text, from as int, 1) {
                Some(e) => r is Some && r->0 == e && from <= e < self@.text.len(),
                None => r is None,
            },
    {
        let mut e: usize = from;
        let mut depth: usize = 1;
        while e < self.text.len()
            invariant
                1 <= from <= e <= self.text.len(),
                self@.text == self.text@,
                1 <= depth <= 1 + e - from,
                brace_end(self@.text, e as int, depth as nat) == brace_end(
                    self@.text,
                    from as int,
                    1,
                ),
            decreases self.text.len() - e,
        {
            let c: char = self.text[e];
            if c == '"' {
                match self.quote_to(e + 1) {
                    Some(end) => {
                        e = end + 1;
                    },
                    None => {
                        return None;
                    },
                }
            } else if c == '{' {
                depth += 1;
                e += 1;
            } else if c == '}' {
                if depth == 1 {
                    return Some(e);
                }
                depth -= 1;
                e += 1;
            } else {
                e += 1;
            }
        }
        None
    }

    /// Steps over the region that has to come next and hands back the stretch
    /// between its braces.
    pub fn parse_region(&mut self) -> (r: ParseResult<Span>)
        requires
            old(self)@.wf(),
        ensures
            reads(
                r,
                old(self)@,
                final(self)@,
                region_at(old(self)@.text, old(self)@.pos),
                |s: Span| (s.start as int, s.end as int),
            ),
            final(self)@.wf(),
            final(self)@.pos >= old(self)@.pos,
            r is Ok ==> final(self)@.pos > old(self)@.pos,
            r matches Ok(s) ==> s.start <= s.end <= final(self)@.text.len(),
    {
        proof {
            reveal_strlit("{");
        }
        if let Err(e) = self.expect("{") {
            return Err(e);
        }
        let start: usize = self.pos;
        match self.brace_to(start) {
            Some(end) => {
                self.set_pos(end + 1);
                Ok(Span { start, end })
            },
            None => Err((self.span(), Error::ExpectedToken("}"))),
        }
    }
}

fn name_char(c: char) -> (r: bool)
    ensures
        r == is_name(c),
{
    ('a' <= c && c <= 'z') || ('A' <= c && c <= 'Z') || ('0' <= c && c <= '9') || c == '_'
}

/// Decimal spelling is read back.
pub proof fn decimal_is_read_back(n: nat)
    ensures
        number_of(decimal(n)) == n,
        decimal(n).len() > 0,
        forall|i: int| 0 <= i < decimal(n).len() ==> is_digit(#[trigger] decimal(n)[i]),
    decreases n,
{
    if n < 10 {
        assert(decimal(n).drop_last() =~= Seq::<char>::empty());
        assert(number_of(Seq::<char>::empty()) == 0);
        assert(decimal(n).last() == digit(n));
    } else {
        decimal_is_read_back(n / 10);
        assert(decimal(n).drop_last() =~= decimal(n / 10));
        assert(decimal(n).last() == digit(n % 10));
        assert(n == (n / 10) * 10 + n % 10);
        assert forall|i: int| 0 <= i < decimal(n).len() implies is_digit(
            #[trigger] decimal(n)[i],
        ) by {
            if i < decimal(n).len() - 1 {
                assert(decimal(n)[i] == decimal(n / 10)[i]);
            }
        }
    }
}

} // verus!
