//! Rebuilds a command line from its arguments with secrets redacted.
//!
//! `--flag value` is redacted for a fixed list of flags; `--key=value` is
//! redacted when the key looks sensitive (see `sensitive_lower_key`) or is
//! one of the listed flags.
use vstd::prelude::*;
use crate::text::{
    chars_of, ends_with, find_char, join_with, joined, owned, str_ends_with, str_eq, views,
};

verus! {

/// What `str::to_lowercase` gives for a text.
pub uninterp spec fn lower_of(s: Seq<char>) -> Seq<char>;

/// Relies on `str::to_lowercase`: its result depends on the characters alone,
/// and the empty string stays empty.
#[verifier::external_body]
fn lowercase(s: &str) -> (r: String)
    ensures
        r@ == lower_of(s@),
        s@.len() == 0 ==> r@.len() == 0,
{
    s.to_lowercase()
}

/// How a listed flag is treated when its value follows as the next argument:
/// `Some(true)` redacts that value, `Some(false)` (an ambiguous flag) keeps it.
pub open spec fn flag_entry(a: Seq<char>) -> Option<bool> {
    if a == "--password"@ || a == "--token"@ || a == "--api-key"@ || a == "--apikey"@ || a
        == "--secret"@ || a == "--client-secret"@ || a == "--access-token"@ || a
        == "--auth-token"@ {
        Some(true)
    } else if a == "-p"@ {
        Some(false)
    } else {
        None
    }
}

/// Whether a lower-cased key names a secret: it is one of a few words, or
/// ends in one of a few suffixes.
pub open spec fn sensitive_lower_key(k: Seq<char>) -> bool {
    ||| k == "password"@
    ||| k == "token"@
    ||| k == "secret"@
    ||| k == "key"@
    ||| k == "auth"@
    ||| ends_with(k, "password"@)
    ||| ends_with(k, "token"@)
    ||| ends_with(k, "secret"@)
    ||| ends_with(k, "_key"@)
}

/// `s` without its leading dashes.
pub open spec fn strip_dashes(s: Seq<char>) -> Seq<char>
    decreases s.len(),
{
    if s.len() > 0 && s[0] == '-' {
        strip_dashes(s.drop_first())
    } else {
        s
    }
}

/// The arguments with secrets replaced; `skip` redacts the first one.
pub open spec fn redacted(args: Seq<Seq<char>>, skip: bool) -> Seq<Seq<char>>
    decreases args.len(),
{
    if args.len() == 0 {
        Seq::empty()
    } else {
        let a = args[0];
        let rest = args.drop_first();
        if skip {
            seq!["[REDACTED]"@] + redacted(rest, false)
        } else {
            match find_char(a, '=') {
                Some(k) => {
                    let key = a.subrange(0, k as int);
                    if sensitive_lower_key(lower_of(strip_dashes(key))) || flag_entry(key) is Some {
                        seq![key + "=[REDACTED]"@] + redacted(rest, false)
                    } else {
                        seq![a] + redacted(rest, false)
                    }
                },
                None => match flag_entry(a) {
                    Some(hide) => seq![a] + redacted(rest, hide && rest.len() > 0),
                    None => seq![a] + redacted(rest, false),
                },
            }
        }
    }
}

fn listed_flag(a: &str) -> (r: Option<bool>)
    ensures
        r == flag_entry(a@),
{
    if str_eq(a, "--password") || str_eq(a, "--token") || str_eq(a, "--api-key") || str_eq(
        a,
        "--apikey",
    ) || str_eq(a, "--secret") || str_eq(a, "--client-secret") || str_eq(a, "--access-token")
        || str_eq(a, "--auth-token") {
        Some(true)
    } else if str_eq(a, "-p") {
        Some(false)
    } else {
        None
    }
}

/// Whether an already lower-cased key names a secret.
pub fn is_sensitive_lowered(k: &str) -> (r: bool)
    ensures
        r == sensitive_lower_key(k@),
{
    str_eq(k, "password") || str_eq(k, "token") || str_eq(k, "secret") || str_eq(k, "key")
        || str_eq(k, "auth") || str_ends_with(k, "password") || str_ends_with(k, "token")
        || str_ends_with(k, "secret") || str_ends_with(k, "_key")
}

/// Whether a key names a secret, without regard to case.
pub fn is_sensitive_key(key: &str) -> (r: bool)
    ensures
        r == sensitive_lower_key(lower_of(key@)),
{
    let lower = lowercase(key);
    is_sensitive_lowered(lower.as_str())
}

fn without_dashes(s: &str) -> (r: String)
    ensures
        r@ == strip_dashes(s@),
{
    let v = chars_of(s);
    let mut i: usize = 0;
    assert(v@.subrange(0, v@.len() as int) =~= v@);
    while i < v.len() && v[i] == '-'
        invariant
            i <= v@.len(),
            v@ == s@,
            strip_dashes(s@) == strip_dashes(v@.subrange(i as int, v@.len() as int)),
        decreases v.len() - i,
    {
        assert(v@.subrange(i as int, v@.len() as int).drop_first() =~= v@.subrange(
            i + 1,
            v@.len() as int,
        ));
        i = i + 1;
    }
    if i < v.len() {
        assert(v@.subrange(i as int, v@.len() as int)[0] == v@[i as int]);
    }
    owned(s.substring_char(i, v.len()))
}

fn find_equals(v: &Vec<char>) -> (r: Option<usize>)
    ensures
        match r {
            Some(i) => i < v@.len() && find_char(v@, '=') == Some(i as nat),
            None => find_char(v@, '=') is None,
        },
{
    let mut i: usize = 0;
    assert(v@.subrange(0, v@.len() as int) =~= v@);
    while i < v.len()
        invariant
            i <= v@.len(),
            match find_char(v@.subrange(i as int, v@.len() as int), '=') {
                Some(k) => find_char(v@, '=') == Some((k + i) as nat),
                None => find_char(v@, '=') is None,
            },
        decreases v.len() - i,
    {
        let ghost s = v@.subrange(i as int, v@.len() as int);
        assert(s[0] == v@[i as int]);
        if v[i] == '=' {
            return Some(i);
        }
        assert(s.drop_first() =~= v@.subrange(i + 1, v@.len() as int));
        i = i + 1;
    }
    assert(v@.subrange(0, v@.len() as int) =~= v@);
    None
}

/// Rebuilds the command line `args` joined with spaces, with secrets
/// redacted (see `redacted`).
pub fn sanitize_command(args: &[String]) -> (r: String)
    ensures
        r@ == joined(redacted(views(args@), false), " "@),
{
    let mut out: Vec<String> = Vec::new();
    let mut skip_next = false;
    let mut i: usize = 0;
    let ghost all = views(args@);
    assert(all.subrange(0, all.len() as int) =~= all);
    while i < args.len()
        invariant
            i <= args@.len(),
            all == views(args@),
            views(out@) + redacted(all.subrange(i as int, all.len() as int), skip_next) == redacted(
                all,
                false,
            ),
            skip_next ==> i < args@.len(),
        decreases args.len() - i,
    {
        let ghost tail = all.subrange(i as int, all.len() as int);
        let ghost rest = all.subrange(i + 1, all.len() as int);
        assert(tail.drop_first() =~= rest);
        assert(tail[0] == args@[i as int]@);
        let ghost before = views(out@);
        let ghost skip0 = skip_next;
        let arg = args[i].as_str();
        if skip_next {
            out.push(owned("[REDACTED]"));
            skip_next = false;
        } else {
            let v = chars_of(arg);
            match find_equals(&v) {
                Some(k) => {
                    let key = arg.substring_char(0, k);
                    let clean = without_dashes(key);
                    if is_sensitive_key(clean.as_str()) || listed_flag(key).is_some() {
                        let mut s = owned(key);
                        s.append("=[REDACTED]");
                        out.push(s);
                    } else {
                        out.push(owned(arg));
                    }
                },
                None => {
                    match listed_flag(arg) {
                        Some(hide) => {
                            out.push(owned(arg));
                            if hide && i + 1 < args.len() {
                                skip_next = true;
                            }
                        },
                        None => {
                            out.push(owned(arg));
                        },
                    }
                },
            }
        }
        assert(views(out@) =~= before.push(out@[out@.len() - 1]@));
        assert(redacted(tail, skip0) == seq![out@[out@.len() - 1]@] + redacted(rest, skip_next));
        assert(views(out@) + redacted(rest, skip_next) =~= before + redacted(tail, skip0));
        i = i + 1;
    }
    join_with(&out, " ")
}

} // verus!
