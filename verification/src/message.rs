//! Messages to the user, before their translation.
//!
//! A message holds the source text, by which the catalogs find its translation, and
//! what its `{}` stand for. What is decided to be said is exact; the words that are
//! shown come from the catalogs.

use crate::i18n;
use crate::text;
use vstd::prelude::*;

verus! {

/// A message: its source text, the text for other numbers when it counts, and its
/// arguments.
#[derive(Debug, PartialEq, Eq)]
pub struct Message {
    id: &'static str,
    plural: Option<(&'static str, u32)>,
    args: Vec<String>,
}

/// A message as its plain values.
#[verifier::ext_equal]
pub struct Saying {
    pub id: Seq<char>,
    pub plural: Option<(Seq<char>, u32)>,
    pub args: Seq<Seq<char>>,
}

/// A message that does not count.
pub open spec fn said(id: Seq<char>, args: Seq<Seq<char>>) -> Saying {
    Saying { id, plural: None, args }
}

/// A message that counts, and tells the number.
pub open spec fn counted_as(one: Seq<char>, many: Seq<char>, n: u32) -> Saying {
    Saying { id: one, plural: Some((many, n)), args: seq![text::dec(n as nat)] }
}

/// The text is what the catalog answers for a message without a number, with its
/// arguments filled in.
pub open spec fn answers(id: &'static str, t: String, s: Saying, r: Seq<char>) -> bool {
    &&& call_ensures(i18n::tr, (id,), t)
    &&& id@ == s.id
    &&& r == i18n::interpolated(t@, s.args)
}

/// The text is what the catalog answers for a message with a number, with its
/// arguments filled in.
pub open spec fn answers_number(
    one: &'static str,
    many: &'static str,
    t: String,
    s: Saying,
    r: Seq<char>,
) -> bool {
    &&& s.plural is Some
    &&& call_ensures(i18n::trn, (one, many, (s.plural->0).1), t)
    &&& one@ == s.id
    &&& many@ == (s.plural->0).0
    &&& r == i18n::interpolated(t@, s.args)
}

/// The text is that of a message in the user's language.
pub open spec fn is_text_of(s: Saying, r: Seq<char>) -> bool {
    if s.plural is Some {
        exists|one: &'static str, many: &'static str, t: String| #[trigger]
            answers_number(one, many, t, s, r)
    } else {
        exists|id: &'static str, t: String| #[trigger] answers(id, t, s, r)
    }
}

impl View for Message {
    type V = Saying;

    closed spec fn view(&self) -> Saying {
        Saying {
            id: self.id@,
            plural: match self.plural {
                Some(p) => Some((p.0@, p.1)),
                None => None,
            },
            args: text::views(self.args@),
        }
    }
}

impl Message {
    /// No text of the message holds a NUL character, which no catalog knows.
    #[verifier::type_invariant]
    spec fn can_be_said(self) -> bool {
        &&& i18n::no_nul(self.id@)
        &&& self.plural matches Some(p) ==> i18n::no_nul(p.0@)
    }

    /// A message without arguments.
    pub fn plain(id: &'static str) -> (r: Self)
        requires
            i18n::no_nul(id@),
        ensures
            r@ == said(id@, Seq::empty()),
    {
        Message::with(id, Vec::new())
    }

    /// A message with one argument.
    pub fn about(id: &'static str, arg: &str) -> (r: Self)
        requires
            i18n::no_nul(id@),
        ensures
            r@ == said(id@, seq![arg@]),
    {
        let mut args: Vec<String> = Vec::new();
        args.push(arg.to_string());
        assert(text::views(args@) =~= seq![arg@]);
        Message::with(id, args)
    }

    /// A message with two arguments.
    pub fn about_both(id: &'static str, first: &str, second: &str) -> (r: Self)
        requires
            i18n::no_nul(id@),
        ensures
            r@ == said(id@, seq![first@, second@]),
    {
        let mut args: Vec<String> = Vec::new();
        args.push(first.to_string());
        args.push(second.to_string());
        assert(text::views(args@) =~= seq![first@, second@]);
        Message::with(id, args)
    }

    /// A message with its arguments.
    pub fn with(id: &'static str, args: Vec<String>) -> (r: Self)
        requires
            i18n::no_nul(id@),
        ensures
            r@ == said(id@, text::views(args@)),
    {
        let r: Message = Message { id, plural: None, args };
        assert(r@ =~~= said(id@, text::views(args@)));
        r
    }

    /// A message that counts: one text for one, the other for other numbers.
    pub fn counted(one: &'static str, many: &'static str, n: u32) -> (r: Self)
        requires
            i18n::no_nul(one@),
            i18n::no_nul(many@),
        ensures
            r@ == counted_as(one@, many@, n),
    {
        let mut args: Vec<String> = Vec::new();
        args.push(text::dec_text(n as u64));
        let r: Message = Message { id: one, plural: Some((many, n)), args };
        assert(r@ =~~= counted_as(one@, many@, n));
        r
    }

    /// The source text.
    pub fn id(&self) -> (r: &'static str)
        ensures
            r@ == self@.id,
    {
        self.id
    }

    /// The arguments.
    pub fn args(&self) -> (r: &Vec<String>)
        ensures
            text::views(r@) == self@.args,
    {
        &self.args
    }

    /// The message in the user's language: the translation of its text, with the
    /// arguments in the place of its `{}`.
    pub fn text(&self) -> (r: String)
        ensures
            is_text_of(self@, r@),
    {
        proof {
            use_type_invariant(self);
        }
        let mut args: Vec<&str> = Vec::new();
        let mut i: usize = 0;
        while i < self.args.len()
            invariant
                i <= self.args.len(),
                args.len() == i,
                forall|k: int| 0 <= k < i ==> (#[trigger] args@[k])@ == self.args@[k]@,
            decreases self.args.len() - i,
        {
            args.push(self.args[i].as_str());
            i += 1;
        }
        assert(i18n::arg_texts(args@) =~= self@.args);
        match self.plural {
            Some((many, n)) => {
                let r: String = i18n::trn_f(self.id, many, n, args.as_slice());
                proof {
                    let t = choose|t: String| #[trigger]
                        call_ensures(i18n::trn, (self.id, many, n), t) && r@ == i18n::interpolated(
                            t@,
                            self@.args,
                        );
                    assert(answers_number(self.id, many, t, self@, r@));
                }
                r
            },
            None => {
                let r: String = i18n::tr_f(self.id, args.as_slice());
                proof {
                    let t = choose|t: String| #[trigger]
                        call_ensures(i18n::tr, (self.id,), t) && r@ == i18n::interpolated(
                            t@,
                            self@.args,
                        );
                    assert(answers(self.id, t, self@, r@));
                }
                r
            },
        }
    }
}

} // verus!
