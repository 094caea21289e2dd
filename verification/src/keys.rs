//! Remote keys: a key prefix joined with a logical path, and back.
//!
//! Keys are forward-slash paths. A key is the prefix, one separator where the
//! prefix does not already end with one, and the logical path. The prefix is
//! taken off again without looking at the path, so that every relative path
//! comes back exactly as it went in.

use vstd::prelude::*;
use vstd::string::*;

verus! {

/// The character that separates the components of a key.
pub const SEPARATOR: char = '/';

/// A path is absolute when it starts at the root.
pub open spec fn is_absolute(path: Seq<char>) -> bool {
    path.len() > 0 && path[0] == SEPARATOR
}

/// The text that every key made from a relative path starts with: the prefix,
/// followed by a separator unless the prefix is empty or already ends with one.
pub open spec fn key_root(prefix: Seq<char>) -> Seq<char> {
    if prefix.len() > 0 && prefix.last() != SEPARATOR {
        prefix.push(SEPARATOR)
    } else {
        prefix
    }
}

/// The key of `path` under `prefix`. An absolute path stands for itself and
/// replaces the prefix; any other path is appended to the prefix, with exactly
/// one separator between the two where the prefix is not empty.
pub open spec fn join_spec(prefix: Seq<char>, path: Seq<char>) -> Seq<char> {
    if is_absolute(path) {
        path
    } else {
        key_root(prefix) + path
    }
}

/// `key` carries `prefix`: it is the key of some relative path under `prefix`.
pub open spec fn carries_prefix(prefix: Seq<char>, key: Seq<char>) -> bool {
    &&& key_root(prefix).is_prefix_of(key)
    &&& !is_absolute(key.skip(key_root(prefix).len() as int))
}

/// The logical path of a key that carries `prefix`.
pub open spec fn strip_spec(prefix: Seq<char>, key: Seq<char>) -> Seq<char> {
    key.skip(key_root(prefix).len() as int)
}

/// Joining a relative path to a prefix and taking the prefix off again gives
/// the path back, character for character.
pub proof fn lemma_key_round_trip(prefix: Seq<char>, path: Seq<char>)
    requires
        !is_absolute(path),
    ensures
        carries_prefix(prefix, join_spec(prefix, path)),
        strip_spec(prefix, join_spec(prefix, path)) == path,
{
    let root = key_root(prefix);
    let key = join_spec(prefix, path);
    assert(key.subrange(0, root.len() as int) =~= root);
    assert(key.skip(root.len() as int) =~= path);
}

/// Every key of a relative path starts with the prefix itself.
pub proof fn lemma_key_starts_with_prefix(prefix: Seq<char>, path: Seq<char>)
    requires
        !is_absolute(path),
    ensures
        prefix.is_prefix_of(join_spec(prefix, path)),
{
    let key = join_spec(prefix, path);
    assert(key.subrange(0, prefix.len() as int) =~= prefix);
}

/// A key that carries the prefix is the key of the path that is left when the
/// prefix is taken off.
pub proof fn lemma_strip_then_join(prefix: Seq<char>, key: Seq<char>)
    requires
        carries_prefix(prefix, key),
    ensures
        join_spec(prefix, strip_spec(prefix, key)) == key,
{
    let root = key_root(prefix);
    assert(key.subrange(0, root.len() as int) + key.skip(root.len() as int) =~= key);
}

/// Whether `path` starts at the root.
pub fn path_is_absolute(path: &str) -> (absolute: bool)
    ensures
        absolute == is_absolute(path@),
{
    !path.is_empty() && path.get_char(0) == SEPARATOR
}

/// The prefix with its separator: see [`key_root`].
pub fn key_root_of(prefix: &str) -> (root: String)
    ensures
        root@ == key_root(prefix@),
{
    let mut root = String::from_str(prefix);
    let len = prefix.unicode_len();
    if len > 0 && prefix.get_char(len - 1) != SEPARATOR {
        proof {
            reveal_strlit("/");
        }
        root.append("/");
        assert(root@ =~= prefix@.push(SEPARATOR));
    }
    root
}

/// Builds the key of `path` under `prefix`. The key of a relative path
/// starts with the prefix, and the path can be recovered from it.
pub fn join_key(prefix: &str, path: &str) -> (key: String)
    ensures
        key@ == join_spec(prefix@, path@),
        !is_absolute(path@) ==> prefix@.is_prefix_of(key@) && carries_prefix(prefix@, key@)
            && strip_spec(prefix@, key@) == path@,
{
    proof {
        if !is_absolute(path@) {
            lemma_key_round_trip(prefix@, path@);
            lemma_key_starts_with_prefix(prefix@, path@);
        }
    }
    if path_is_absolute(path) {
        String::from_str(path)
    } else {
        let mut key = key_root_of(prefix);
        key.append(path);
        key
    }
}

/// Whether `key` is the key of a relative path under `prefix`.
pub fn key_carries_prefix(prefix: &str, key: &str) -> (carried: bool)
    ensures
        carried == carries_prefix(prefix@, key@),
{
    let root = key_root_of(prefix);
    let root_len = root.as_str().unicode_len();
    let key_len = key.unicode_len();
    if key_len < root_len {
        return false;
    }
    let head = String::from_str(key.substring_char(0, root_len));
    if head != root {
        return false;
    }
    assert(key@.subrange(0, root_len as int) =~= root@);
    if key_len == root_len {
        return true;
    }
    let next = key.get_char(root_len);
    assert(key@.skip(root_len as int)[0] == key@[root_len as int]);
    next != SEPARATOR
}

/// Takes the prefix off a key that carries it.
pub fn strip_key_prefix(prefix: &str, key: &str) -> (path: String)
    requires
        carries_prefix(prefix@, key@),
    ensures
        path@ == strip_spec(prefix@, key@),
        join_spec(prefix@, path@) == key@,
{
    let root = key_root_of(prefix);
    let root_len = root.as_str().unicode_len();
    let key_len = key.unicode_len();
    let path = String::from_str(key.substring_char(root_len, key_len));
    assert(path@ =~= key@.skip(root_len as int));
    proof {
        lemma_strip_then_join(prefix@, key@);
    }
    path
}

} // verus!
