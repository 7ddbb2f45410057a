//! Simple selectors: a tag name, `.class` or `#id`, and nothing more.
//!
//! A selector text is one component. Combinators and compound selectors are
//! not read: whatever follows the first identifier is left where it is.

use vstd::prelude::*;
use vstd::string::*;
use crate::unicode::{alphabetic, alphanumeric};

verus! {

/// How an element is chosen: by its tag name, by one of its classes, or by its id.
#[derive(Debug, PartialEq, Eq)]
pub enum SimpleSelector {
    Tag(String),
    Class(String),
    Id(String),
}

/// What a [`SimpleSelector`] stands for.
pub enum Selector {
    Tag(Seq<char>),
    Class(Seq<char>),
    Id(Seq<char>),
}

impl View for SimpleSelector {
    type V = Selector;

    open spec fn view(&self) -> Selector {
        match self {
            SimpleSelector::Tag(name) => Selector::Tag(name@),
            SimpleSelector::Class(name) => Selector::Class(name@),
            SimpleSelector::Id(name) => Selector::Id(name@),
        }
    }
}

impl Clone for SimpleSelector {
    /// A copy that is equal to the selector.
    fn clone(&self) -> (copy: Self)
        ensures
            copy == *self,
    {
        match self {
            SimpleSelector::Tag(name) => SimpleSelector::Tag(name.clone()),
            SimpleSelector::Class(name) => SimpleSelector::Class(name.clone()),
            SimpleSelector::Id(name) => SimpleSelector::Id(name.clone()),
        }
    }
}

/// The view of a selector that may be absent.
pub open spec fn selector_view(selector: Option<SimpleSelector>) -> Option<Selector> {
    match selector {
        Some(s) => Some(s@),
        None => None,
    }
}

/// What the first character of a selector text announces.
#[derive(Debug, Clone, Copy, PartialEq, Eq)]
pub enum Lead {
    /// A dot: a class name follows.
    Class,
    /// A hash sign: an id follows.
    Id,
    /// A letter: it starts a tag name.
    Tag,
}

/// What `c` announces at the start of a selector, where `letter` says whether
/// `c` is alphabetic.
pub open spec fn lead_of(c: char, letter: bool) -> Option<Lead> {
    if c == '.' {
        Some(Lead::Class)
    } else if c == '#' {
        Some(Lead::Id)
    } else if letter {
        Some(Lead::Tag)
    } else {
        None
    }
}

/// Whether `c` may stand in an identifier, where `alnum` says whether `c` is
/// alphanumeric.
pub open spec fn continues_identifier(c: char, alnum: bool) -> bool {
    alnum || c == '-' || c == '_'
}

/// Whether `c` may stand in an identifier: alphanumeric, `-` or `_`.
pub open spec fn is_identifier_char(c: char) -> bool {
    continues_identifier(c, alphanumeric(c))
}

/// The length of the longest run of identifier characters at the start of `s`.
pub open spec fn identifier_len(s: Seq<char>) -> nat
    decreases s.len(),
{
    if s.len() > 0 && is_identifier_char(s[0]) {
        1 + identifier_len(s.drop_first())
    } else {
        0
    }
}

/// The identifier at the start of `s`: its longest run of identifier
/// characters, which may be empty.
pub open spec fn identifier(s: Seq<char>) -> Seq<char> {
    s.take(identifier_len(s) as int)
}

/// The selector that the text `s` writes, if it writes one.
pub open spec fn parse_selector(s: Seq<char>) -> Option<Selector> {
    if s.len() == 0 {
        None
    } else {
        match lead_of(s[0], alphabetic(s[0])) {
            Some(Lead::Class) => Some(Selector::Class(identifier(s.skip(1)))),
            Some(Lead::Id) => Some(Selector::Id(identifier(s.skip(1)))),
            Some(Lead::Tag) => Some(Selector::Tag(identifier(s))),
            None => None,
        }
    }
}

/// How many characters of `s` a parse takes: the marker, if there is one, and
/// the identifier. Nothing where `s` writes no selector.
pub open spec fn parsed_len(s: Seq<char>) -> nat {
    if s.len() == 0 {
        0
    } else {
        match lead_of(s[0], alphabetic(s[0])) {
            Some(Lead::Tag) => identifier_len(s),
            Some(_) => 1 + identifier_len(s.skip(1)),
            None => 0,
        }
    }
}

/// The identifier at the start of `s` is made of identifier characters only,
/// lies within `s`, and cannot be made longer.
pub proof fn lemma_identifier_is_maximal(s: Seq<char>)
    ensures
        identifier_len(s) <= s.len(),
        forall|k: int| 0 <= k < identifier_len(s) ==> is_identifier_char(#[trigger] s[k]),
        identifier_len(s) < s.len() ==> !is_identifier_char(s[identifier_len(s) as int]),
    decreases s.len(),
{
    if s.len() > 0 && is_identifier_char(s[0]) {
        let rest = s.drop_first();
        lemma_identifier_is_maximal(rest);
        assert forall|k: int| 0 <= k < identifier_len(s) implies is_identifier_char(
            #[trigger] s[k],
        ) by {
            if k > 0 {
                assert(s[k] == rest[k - 1]);
            }
        }
        if identifier_len(s) < s.len() {
            assert(s[identifier_len(s) as int] == rest[identifier_len(rest) as int]);
        }
    }
}

/// Where identifier characters fill `s` up to `n` and stop there, the
/// identifier at the start of `s` has length `n`.
proof fn lemma_identifier_len_at(s: Seq<char>, n: int)
    requires
        0 <= n <= s.len(),
        forall|k: int| 0 <= k < n ==> is_identifier_char(#[trigger] s[k]),
        n < s.len() ==> !is_identifier_char(s[n]),
    ensures
        identifier_len(s) == n,
    decreases n,
{
    if n > 0 {
        let rest = s.drop_first();
        assert forall|k: int| 0 <= k < n - 1 implies is_identifier_char(#[trigger] rest[k]) by {
            assert(rest[k] == s[k + 1]);
        }
        lemma_identifier_len_at(rest, n - 1);
    }
}

/// What `c` announces at the start of a selector, where `letter` says whether
/// `c` is alphabetic.
pub fn selector_lead(c: char, letter: bool) -> (lead: Option<Lead>)
    ensures
        lead == lead_of(c, letter),
{
    if c == '.' {
        Some(Lead::Class)
    } else if c == '#' {
        Some(Lead::Id)
    } else if letter {
        Some(Lead::Tag)
    } else {
        None
    }
}

/// Whether `c` may stand in an identifier, where `alnum` says whether `c` is
/// alphanumeric.
pub fn identifier_continues(c: char, alnum: bool) -> (yes: bool)
    ensures
        yes == continues_identifier(c, alnum),
{
    alnum || c == '-' || c == '_'
}

/// A cursor over a selector text.
pub struct SimpleSelectorParser {
    input: String,
    position: usize,
}

impl SimpleSelectorParser {
    /// The characters that have not been read yet.
    pub closed spec fn remaining(&self) -> Seq<char> {
        if self.position <= self.input@.len() {
            self.input@.skip(self.position as int)
        } else {
            Seq::empty()
        }
    }

    /// A parser at the start of `input`.
    pub fn new(input: &str) -> (parser: Self)
        ensures
            parser.remaining() == input@,
    {
        let parser = SimpleSelectorParser { input: String::from_str(input), position: 0 };
        assert(parser.input@.skip(0) =~= input@);
        parser
    }

    /// The next character, if there is one. The cursor stays.
    fn peek(&self) -> (next: Option<char>)
        ensures
            next == (if self.remaining().len() > 0 {
                Some(self.remaining()[0])
            } else {
                None
            }),
            next is Some ==> self.position < self.input@.len(),
    {
        if self.position < self.input.as_str().unicode_len() {
            Some(self.input.as_str().get_char(self.position))
        } else {
            None
        }
    }

    /// The next character, if there is one, with the cursor moved past it. At
    /// the end of the text the cursor stays.
    fn consume(&mut self) -> (next: Option<char>)
        ensures
            next == (if old(self).remaining().len() > 0 {
                Some(old(self).remaining()[0])
            } else {
                None
            }),
            final(self).remaining() == (if old(self).remaining().len() > 0 {
                old(self).remaining().skip(1)
            } else {
                old(self).remaining()
            }),
    {
        let current = self.peek();
        if current.is_some() {
            let _ = self.input.as_str().unicode_len();
            self.position = self.position + 1;
            assert(self.remaining() =~= old(self).remaining().skip(1));
        }
        current
    }

    /// Reads the identifier at the cursor: the longest run of alphanumeric
    /// characters, `-` and `_`. It may be empty.
    fn consume_identifier(&mut self) -> (name: String)
        ensures
            name@ == identifier(old(self).remaining()),
            final(self).remaining() == old(self).remaining().skip(name@.len() as int),
    {
        let ghost start = self.remaining();
        let mut name = String::new();
        assert(start.skip(0) =~= start);
        assert(name@ =~= start.take(0));
        loop
            invariant
                name@.len() <= start.len(),
                name@ == start.take(name@.len() as int),
                self.remaining() == start.skip(name@.len() as int),
                forall|k: int| 0 <= k < name@.len() ==> is_identifier_char(#[trigger] start[k]),
            ensures
                name@.len() < start.len() ==> !is_identifier_char(start[name@.len() as int]),
            decreases start.len() - name@.len(),
        {
            match self.peek() {
                Some(c) => {
                    if identifier_continues(c, c.is_alphanumeric()) {
                        let ghost before = name@;
                        let _ = self.consume();
                        name.push(c);
                        assert(start[before.len() as int] == c);
                        assert(name@ =~= start.take(before.len() as int + 1));
                        assert(start.skip(before.len() as int).skip(1) =~= start.skip(
                            before.len() as int + 1,
                        ));
                    } else {
                        break ;
                    }
                },
                None => {
                    break ;
                },
            }
        }
        proof {
            lemma_identifier_len_at(start, name@.len() as int);
        }
        name
    }

    /// Reads one selector at the cursor: `.` and a class name, `#` and an id,
    /// or a tag name that starts with a letter. `None`, with the cursor
    /// unmoved, where the text is at its end or starts with anything else.
    pub fn parse(&mut self) -> (selector: Option<SimpleSelector>)
        ensures
            selector_view(selector) == parse_selector(old(self).remaining()),
            final(self).remaining() == old(self).remaining().skip(
                parsed_len(old(self).remaining()) as int,
            ),
    {
        assert(self.remaining().skip(0) =~= self.remaining());
        match self.peek() {
            Some(c) => {
                match selector_lead(c, c.is_alphabetic()) {
                    Some(Lead::Class) => {
                        let _ = self.consume();
                        let name = self.consume_identifier();
                        proof {
                            let rest = old(self).remaining().skip(1);
                            lemma_identifier_is_maximal(rest);
                            assert(rest.skip(identifier_len(rest) as int) =~= old(
                                self,
                            ).remaining().skip(1 + identifier_len(rest) as int));
                        }
                        Some(SimpleSelector::Class(name))
                    },
                    Some(Lead::Id) => {
                        let _ = self.consume();
                        let name = self.consume_identifier();
                        proof {
                            let rest = old(self).remaining().skip(1);
                            lemma_identifier_is_maximal(rest);
                            assert(rest.skip(identifier_len(rest) as int) =~= old(
                                self,
                            ).remaining().skip(1 + identifier_len(rest) as int));
                        }
                        Some(SimpleSelector::Id(name))
                    },
                    Some(Lead::Tag) => {
                        proof {
                            lemma_identifier_is_maximal(old(self).remaining());
                        }
                        Some(SimpleSelector::Tag(self.consume_identifier()))
                    },
                    None => None,
                }
            },
            None => None,
        }
    }
}

} // verus!
