//! Translated messages.
//!
//! The source strings are English; the catalogs of the domain [`DOMAIN`] hold
//! their translations. What a catalog answers depends on the locale and on the
//! catalogs that are installed, so nothing is promised of a translation but that
//! it holds no NUL character. Which message is asked for, and what is done with the
//! answer, is exact: see [`interpolate`].

use crate::text;
use vstd::prelude::*;

verus! {

/// The gettext domain, which is the base name of the catalogs.
pub const DOMAIN: &'static str = "winctrl";

/// The text holds no NUL character, which cannot stand in a message.
pub open spec fn no_nul(s: Seq<char>) -> bool {
    forall|i: int| 0 <= i < s.len() ==> #[trigger] s[i] != '\0'
}

/// `gettextrs::gettext`: the translation of `msgid` in the current domain. It
/// panics on a NUL in `msgid`; it returns the characters of a C string, so no
/// NUL stands in them. Which text comes back depends on the locale and the
/// installed catalogs. It also panics when a catalog answers in another encoding
/// than UTF-8, which binding the domain's codeset to UTF-8 excludes. It is public so
/// that contracts can speak of its answers; [`tr`] is for callers.
#[verifier::external_body]
pub fn catalog_message(msgid: &str) -> (r: String)
    requires
        no_nul(msgid@),
    ensures
        no_nul(r@),
{
    gettextrs::gettext(msgid)
}

/// `gettextrs::ngettext`: the translation of `singular` or `plural` that the
/// plural rules of the catalog choose for `n`. As [`catalog_message`] otherwise;
/// [`trn`] is for callers.
#[verifier::external_body]
pub fn catalog_plural(singular: &str, plural: &str, n: u32) -> (r: String)
    requires
        no_nul(singular@),
        no_nul(plural@),
    ensures
        no_nul(r@),
{
    gettextrs::ngettext(singular, plural, n)
}

/// The text with its `{}` replaced by the arguments, the first by the first and so
/// on. Marks beyond the arguments stay, and arguments beyond the marks are left out.
/// What an argument brings in is not searched for marks.
pub open spec fn interpolated(t: Seq<char>, args: Seq<Seq<char>>) -> Seq<char>
    decreases t.len(),
{
    if t.len() < 2 || args.len() == 0 {
        t
    } else if t[0] == '{' && t[1] == '}' {
        args[0] + interpolated(t.skip(2), args.skip(1))
    } else {
        seq![t[0]] + interpolated(t.skip(1), args)
    }
}

/// A `{}` stands at a place of the text.
pub open spec fn is_mark(t: Seq<char>, i: int) -> bool {
    0 <= i && i + 1 < t.len() && t[i] == '{' && t[i + 1] == '}'
}

/// The characters of each argument.
pub open spec fn arg_texts(args: Seq<&str>) -> Seq<Seq<char>> {
    Seq::new(args.len(), |i: int| args[i]@)
}

/// Replaces the `{}` of `template` by `args`, in order.
pub fn interpolate(template: String, args: &[&str]) -> (r: String)
    ensures
        r@ == interpolated(template@, arg_texts(args@)),
{
    let chars: Vec<char> = text::chars_of(template.as_str());
    let n: usize = chars.len();
    let ghost t = template@;
    let ghost all = arg_texts(args@);
    let mut out: String = String::new();
    let mut i: usize = 0;
    let mut k: usize = 0;
    assert(t.skip(0) == t);
    assert(all.skip(0) == all);
    assert(out@ + interpolated(t, all) == interpolated(t, all));
    while n - i >= 2 && k < args.len()
        invariant
            n == chars.len(),
            chars@ == t,
            t == template@,
            all == arg_texts(args@),
            i <= n,
            k <= args.len(),
            interpolated(t, all) == out@ + interpolated(t.skip(i as int), all.skip(k as int)),
        decreases n - i,
    {
        let ghost rest = t.skip(i as int);
        let ghost left = all.skip(k as int);
        let ghost done = out@;
        assert(rest[0] == t[i as int] && rest[1] == t[i + 1]);
        if chars[i] == '{' && chars[i + 1] == '}' {
            out.append(args[k]);
            proof {
                assert(left[0] == args@[k as int]@);
                assert(rest.skip(2) == t.skip(i + 2));
                assert(left.skip(1) == all.skip(k + 1));
                assert(done + (left[0] + interpolated(rest.skip(2), left.skip(1))) == out@
                    + interpolated(rest.skip(2), left.skip(1)));
            }
            i += 2;
            k += 1;
        } else {
            out.push(chars[i]);
            proof {
                assert(rest.skip(1) == t.skip(i + 1));
                assert(done + (seq![rest[0]] + interpolated(rest.skip(1), left)) == out@
                    + interpolated(rest.skip(1), left));
            }
            i += 1;
        }
    }
    assert(chars@.subrange(i as int, n as int) == t.skip(i as int));
    out.append(text::string_between(&chars, i, n).as_str());
    out
}

/// Arguments for which there is no `{}` change nothing.
pub proof fn law_interpolate_without_marks(t: Seq<char>, args: Seq<Seq<char>>)
    requires
        forall|i: int| !is_mark(t, i),
    ensures
        interpolated(t, args) == t,
    decreases t.len(),
{
    if t.len() >= 2 && args.len() > 0 {
        let rest = t.skip(1);
        assert(!is_mark(t, 0));
        assert forall|i: int| !is_mark(rest, i) by {
            assert(!is_mark(t, i + 1));
        }
        law_interpolate_without_marks(rest, args);
        assert(seq![t[0]] + rest == t);
    }
}

/// What stands before the first `{}` stays, its argument takes its place, and the
/// rest is filled from the next argument on, whatever the argument holds.
pub proof fn law_interpolate_in_order(
    before: Seq<char>,
    after: Seq<char>,
    arg: Seq<char>,
    args: Seq<Seq<char>>,
)
    requires
        forall|i: int| !is_mark(before + seq!['{'], i),
    ensures
        interpolated(before + seq!['{', '}'] + after, seq![arg] + args) == before + arg
            + interpolated(after, args),
    decreases before.len(),
{
    let t = before + seq!['{', '}'] + after;
    let all = seq![arg] + args;
    assert(all.skip(1) == args);
    if before.len() == 0 {
        assert(t.skip(2) == after);
        assert(before + arg == arg);
    } else {
        let rest = before.skip(1);
        let open = before + seq!['{'];
        assert(!is_mark(open, 0));
        assert(t[0] == open[0] && t[1] == open[1]);
        assert forall|i: int| !is_mark(rest + seq!['{'], i) by {
            let shorter = rest + seq!['{'];
            if is_mark(shorter, i) {
                assert(shorter[i] == open[i + 1] && shorter[i + 1] == open[i + 2]);
                assert(is_mark(open, i + 1));
            }
        }
        law_interpolate_in_order(rest, after, arg, args);
        assert(t.skip(1) == rest + seq!['{', '}'] + after);
        assert(seq![t[0]] + (rest + arg + interpolated(after, args)) == before + arg
            + interpolated(after, args));
    }
}

/// Translates a message: what the catalog answers for it.
pub fn tr(msgid: &str) -> (r: String)
    requires
        no_nul(msgid@),
    ensures
        call_ensures(catalog_message, (msgid,), r),
        no_nul(r@),
{
    catalog_message(msgid)
}

/// Translates a message, then replaces the `{}` of the translation by `args`.
pub fn tr_f(msgid: &str, args: &[&str]) -> (r: String)
    requires
        no_nul(msgid@),
    ensures
        exists|t: String| #[trigger]
            call_ensures(tr, (msgid,), t) && r@ == interpolated(t@, arg_texts(args@)),
{
    let t: String = tr(msgid);
    interpolate(t, args)
}

/// Translates the form of a message for the number `n`: what the catalog answers
/// for it.
pub fn trn(singular: &str, plural: &str, n: u32) -> (r: String)
    requires
        no_nul(singular@),
        no_nul(plural@),
    ensures
        call_ensures(catalog_plural, (singular, plural, n), r),
        no_nul(r@),
{
    catalog_plural(singular, plural, n)
}

/// Translates the form of a message for the number `n`, then replaces its `{}`
/// by `args`.
pub fn trn_f(singular: &str, plural: &str, n: u32, args: &[&str]) -> (r: String)
    requires
        no_nul(singular@),
        no_nul(plural@),
    ensures
        exists|t: String| #[trigger]
            call_ensures(trn, (singular, plural, n), t) && r@ == interpolated(
                t@,
                arg_texts(args@),
            ),
{
    let t: String = trn(singular, plural, n);
    interpolate(t, args)
}

// --- Where the catalogs are ---------------------------------------------------------

/// The base directories that may hold the catalogs, in the order in which they
/// are tried.
pub open spec fn locale_bases(home: Option<Seq<char>>) -> Seq<Seq<char>> {
    let common = seq![
        "/app/share/locale"@,
        "/usr/local/share/locale"@,
        "/usr/share/locale"@,
    ];
    match home {
        Some(h) => seq![h + "/.local/share/locale"@] + common,
        None => common,
    }
}

/// The base directories to try for the catalogs.
pub fn locale_candidates(home: Option<&str>) -> (r: Vec<String>)
    ensures
        text::views(r@) == locale_bases(
            match home {
                Some(h) => Some(h@),
                None => None,
            },
        ),
{
    let mut out: Vec<String> = Vec::new();
    if let Some(h) = home {
        let mut p: String = h.to_string();
        p.append("/.local/share/locale");
        out.push(p);
    }
    out.push("/app/share/locale".to_string());
    out.push("/usr/local/share/locale".to_string());
    out.push("/usr/share/locale".to_string());
    assert(text::views(out@) == locale_bases(
        match home {
            Some(h) => Some(h@),
            None => None,
        },
    ));
    out
}

/// The first base that holds the domain, when one does.
pub open spec fn first_base(bases: Seq<Seq<char>>, holds: Seq<bool>) -> Option<Seq<char>>
    decreases bases.len(),
{
    if bases.len() == 0 || holds.len() == 0 {
        None
    } else if holds[0] {
        Some(bases[0])
    } else {
        first_base(bases.skip(1), holds.skip(1))
    }
}

/// Chooses the base directory: the override when there is one, else the first
/// candidate that holds the domain, else `/usr/share/locale`. `holds` says of
/// each candidate whether it does.
pub fn locale_dir(chosen: Option<String>, candidates: &Vec<String>, holds: &Vec<bool>) -> (r: String)
    ensures
        r@ == match chosen {
            Some(d) => d@,
            None => match first_base(text::views(candidates@), holds@) {
                Some(b) => b,
                None => "/usr/share/locale"@,
            },
        },
{
    if let Some(d) = chosen {
        return d;
    }
    let ghost bases = text::views(candidates@);
    let mut i: usize = 0;
    assert(bases.skip(0) == bases);
    assert(holds@.skip(0) == holds@);
    while i < candidates.len() && i < holds.len()
        invariant
            i <= candidates.len(),
            i <= holds.len(),
            bases == text::views(candidates@),
            first_base(bases, holds@) == first_base(bases.skip(i as int), holds@.skip(i as int)),
            chosen is None,
        decreases candidates.len() - i,
    {
        assert(bases.skip(i as int)[0] == candidates[i as int]@);
        assert(holds@.skip(i as int)[0] == holds[i as int]);
        if holds[i] {
            return candidates[i].clone();
        }
        assert(bases.skip(i as int).skip(1) == bases.skip(i + 1));
        assert(holds@.skip(i as int).skip(1) == holds@.skip(i + 1));
        i += 1;
    }
    "/usr/share/locale".to_string()
}

/// The catalogs are taken from the first directory that holds them.
pub proof fn law_first_base_that_holds(bases: Seq<Seq<char>>, holds: Seq<bool>, i: int)
    requires
        0 <= i < bases.len(),
        i < holds.len(),
        holds[i],
        forall|j: int| 0 <= j < i ==> !(#[trigger] holds[j]),
    ensures
        first_base(bases, holds) == Some(bases[i]),
    decreases i,
{
    if i > 0 {
        assert(!holds[0]);
        assert(holds.skip(1)[i - 1] == holds[i]);
        assert forall|j: int| 0 <= j < i - 1 implies !(#[trigger] holds.skip(1)[j]) by {
            assert(!holds[j + 1]);
        }
        law_first_base_that_holds(bases.skip(1), holds.skip(1), i - 1);
        assert(bases.skip(1)[i - 1] == bases[i]);
    }
}

/// Without a directory that holds them there is none to take.
pub proof fn law_no_base_that_holds(bases: Seq<Seq<char>>, holds: Seq<bool>)
    requires
        forall|j: int| 0 <= j < holds.len() ==> !(#[trigger] holds[j]),
    ensures
        first_base(bases, holds) is None,
    decreases bases.len(),
{
    if bases.len() > 0 && holds.len() > 0 {
        assert(!holds[0]);
        assert forall|j: int| 0 <= j < holds.skip(1).len() implies !(#[trigger] holds.skip(1)[j]) by {
            assert(!holds[j + 1]);
        }
        law_no_base_that_holds(bases.skip(1), holds.skip(1));
    }
}

} // verus!
