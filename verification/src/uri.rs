//! Addresses of buckets.
//!
//! An address names a bucket and, optionally, a key prefix inside it:
//! `s3://bucket/path/to/prefix`. The scheme may carry a protocol, as in
//! `s3+https://bucket`. The address is looked for anywhere in the text, and
//! the first place where one starts is taken.

use vstd::prelude::*;
use vstd::string::*;

verus! {

/// The first position at or after `from` where `text` holds `stop`; the length
/// of `text` where it holds none.
pub open spec fn find_from(text: Seq<char>, from: int, stop: char) -> int
    decreases text.len() - from,
{
    if from < 0 || from >= text.len() {
        text.len() as int
    } else if text[from] == stop {
        from
    } else {
        find_from(text, from + 1, stop)
    }
}

/// Whether `text` holds `word` at position `at`.
pub open spec fn holds_at(text: Seq<char>, at: int, word: Seq<char>) -> bool {
    0 <= at && at + word.len() <= text.len() && text.subrange(at, at + word.len()) == word
}

/// What separates the scheme from the bucket.
pub open spec fn scheme_separator() -> Seq<char> {
    seq![':', '/', '/']
}

/// Where the bucket starts, for a scheme that starts at `at`. The scheme is
/// `s3`, or `s3+` and a protocol of one or more characters without a colon,
/// and it is followed by `://`.
pub open spec fn scheme_end(text: Seq<char>, at: int) -> Option<int> {
    if !holds_at(text, at, seq!['s', '3']) {
        None
    } else if at + 2 < text.len() && text[at + 2] == '+' {
        let colon = find_from(text, at + 3, ':');
        if colon > at + 3 && holds_at(text, colon, scheme_separator()) {
            Some(colon + 3)
        } else {
            None
        }
    } else if holds_at(text, at + 2, scheme_separator()) {
        Some(at + 5)
    } else {
        None
    }
}

/// Whether an address starts at `at`: a scheme, followed by a bucket of at
/// least one character.
pub open spec fn address_at(text: Seq<char>, at: int) -> bool {
    scheme_end(text, at) matches Some(bucket) && bucket < text.len() && text[bucket] != '/'
}

/// Whether the first address in `text` starts at `at`.
pub open spec fn first_address_at(text: Seq<char>, at: int) -> bool {
    address_at(text, at) && forall|earlier: int| 0 <= earlier < at ==> !address_at(text, earlier)
}

/// The bucket of the address that starts at `at`: everything from the end of
/// the scheme up to the next slash.
pub open spec fn bucket_at(text: Seq<char>, at: int) -> Seq<char> {
    let start = scheme_end(text, at)->Some_0;
    text.subrange(start, find_from(text, start, '/'))
}

/// The key prefix of the address that starts at `at`: everything after the
/// slash that ends the bucket, up to the end of the line. It is empty where
/// nothing follows the bucket, or a slash alone.
pub open spec fn prefix_at(text: Seq<char>, at: int) -> Seq<char> {
    let start = scheme_end(text, at)->Some_0;
    let slash = find_from(text, start, '/');
    if slash + 1 < text.len() && text[slash + 1] != '\n' {
        text.subrange(slash + 1, find_from(text, slash + 1, '\n'))
    } else {
        Seq::empty()
    }
}

/// The characters of a text, one by one.
fn chars_of(text: &str) -> (chars: Vec<char>)
    ensures
        chars@ == text@,
{
    let mut chars: Vec<char> = Vec::new();
    for c in iter: text.chars()
        invariant
            iter.seq() == text@,
            chars@ == iter.seq().take(iter.index()),
    {
        chars.push(c);
        assert(iter.seq().take(iter.index()).push(c) =~= iter.seq().take(iter.index() + 1));
    }
    assert(text@.take(text@.len() as int) =~= text@);
    chars
}

/// The first position at or after `from` where `chars` holds `stop`.
fn find_char(chars: &Vec<char>, from: usize, stop: char) -> (at: usize)
    requires
        from <= chars@.len(),
    ensures
        at == find_from(chars@, from as int, stop),
        from <= at <= chars@.len(),
        at < chars@.len() ==> chars@[at as int] == stop,
        forall|i: int| from <= i < at ==> chars@[i] != stop,
{
    let mut at: usize = from;
    while at < chars.len() && chars[at] != stop
        invariant
            from <= at <= chars@.len(),
            find_from(chars@, from as int, stop) == find_from(chars@, at as int, stop),
            forall|i: int| from <= i < at ==> chars@[i] != stop,
        decreases chars@.len() - at,
    {
        at += 1;
    }
    at
}

/// Whether `chars` holds `://` at position `at`.
fn holds_separator(chars: &Vec<char>, at: usize) -> (held: bool)
    ensures
        held == holds_at(chars@, at as int, scheme_separator()),
{
    let len = chars.len();
    if len < 3 || at > len - 3 {
        return false;
    }
    let held = chars[at] == ':' && chars[at + 1] == '/' && chars[at + 2] == '/';
    proof {
        let word = chars@.subrange(at as int, at + 3);
        assert(word[0] == chars@[at as int]);
        assert(word[1] == chars@[at + 1]);
        assert(word[2] == chars@[at + 2]);
        if held {
            assert(word =~= scheme_separator());
        }
    }
    held
}

/// Where the bucket starts, for a scheme that starts at `at`.
fn scheme_end_at(chars: &Vec<char>, at: usize) -> (end: Option<usize>)
    requires
        at <= chars@.len(),
    ensures
        scheme_end(chars@, at as int) == match end {
            Some(bucket) => Some(bucket as int),
            None => None,
        },
        end matches Some(bucket) ==> bucket <= chars@.len(),
{
    let len = chars.len();
    if len < 2 || at > len - 2 {
        return None;
    }
    proof {
        let word = chars@.subrange(at as int, at + 2);
        assert(word[0] == chars@[at as int]);
        assert(word[1] == chars@[at + 1]);
        if chars@[at as int] == 's' && chars@[at + 1] == '3' {
            assert(word =~= seq!['s', '3']);
        }
    }
    if chars[at] != 's' || chars[at + 1] != '3' {
        return None;
    }
    if at + 2 < len && chars[at + 2] == '+' {
        let colon = find_char(chars, at + 3, ':');
        if colon > at + 3 && holds_separator(chars, colon) {
            Some(colon + 3)
        } else {
            None
        }
    } else if holds_separator(chars, at + 2) {
        Some(at + 5)
    } else {
        None
    }
}

/// Takes an address apart: the bucket and the key prefix of the first address
/// in `uri`, or nothing where `uri` holds no address.
pub fn parse_s3_uri(uri: &str) -> (parsed: Option<(String, String)>)
    ensures
        match parsed {
            Some((bucket, prefix)) => exists|at: int|
                first_address_at(uri@, at) && bucket@ == bucket_at(uri@, at) && prefix@
                    == prefix_at(uri@, at),
            None => forall|at: int| !address_at(uri@, at),
        },
{
    let chars = chars_of(uri);
    let len = chars.len();
    let mut at: usize = 0;
    while at < len
        invariant
            len == chars@.len(),
            chars@ == uri@,
            at <= len,
            forall|earlier: int| 0 <= earlier < at ==> !address_at(uri@, earlier),
        decreases len - at,
    {
        if let Some(start) = scheme_end_at(&chars, at) {
            if start < len && chars[start] != '/' {
                let slash = find_char(&chars, start, '/');
                let bucket = String::from_str(uri.substring_char(start, slash));
                let prefix = if len - slash > 1 && chars[slash + 1] != '\n' {
                    let end = find_char(&chars, slash + 1, '\n');
                    String::from_str(uri.substring_char(slash + 1, end))
                } else {
                    String::new()
                };
                assert(first_address_at(uri@, at as int));
                return Some((bucket, prefix));
            }
        }
        at += 1;
    }
    assert forall|at: int| !address_at(uri@, at) by {
        if at < 0 || at >= len {
            assert(!holds_at(uri@, at, seq!['s', '3']));
        }
    }
    None
}

} // verus!
