//! Endpoint resolution: the address of a channel for one user of the
//! machine, computed from the channel's name and one of the user's
//! directories. Every strategy is a function of its arguments: a client
//! that is started on its own resolves the address that the server bound.

use crate::encoding::{base64url, base64url_encode, sha256, sha256_digest};
use vstd::prelude::*;
use vstd::string::{StrSliceExecFns, StringExecFns};
use vstd::utf8::encode_utf8;

verus! {

/// How the endpoint of a channel is placed for a user.
#[derive(Clone, Copy, Debug, PartialEq, Eq, Structural)]
pub enum Strategy {
    /// A named pipe whose name holds a hash of the user's home directory.
    NamedPipe,
    /// A socket in the temporary directory of the application group's
    /// container, below the user's own directory.
    GroupContainer,
    /// A socket in the temporary directory of the operating system, for an
    /// application that runs outside its sandbox.
    TemporaryDirectory,
    /// A socket in a directory of its own below the user's cache directory.
    CacheDirectory,
}

/// The namespace of local pipes.
pub open spec fn pipe_prefix() -> Seq<char> {
    "\\\\.\\pipe\\"@
}

/// What stands between the hashed segment of a pipe's name and the channel name.
pub open spec fn pipe_infix() -> Seq<char> {
    ".app."@
}

/// From the user's own directory to a channel's socket in the group container.
pub open spec fn group_container_infix() -> Seq<char> {
    "Library/Group Containers/LTZ2PFU5D6.com.bitwarden.desktop/tmp/app."@
}

/// From the temporary directory to a channel's socket.
pub open spec fn temporary_infix() -> Seq<char> {
    "app."@
}

/// From the user's cache directory to a channel's socket.
pub open spec fn cache_infix() -> Seq<char> {
    "com.bitwarden.desktop/app."@
}

/// `dir` as the prefix of the paths below it: with one separator after it,
/// unless it is empty or ends in one.
pub open spec fn as_directory(dir: Seq<char>) -> Seq<char> {
    if dir.len() == 0 || dir.last() == '/' {
        dir
    } else {
        dir.push('/')
    }
}

/// The first place at or after `i` that holds no separator.
pub open spec fn after_separators(path: Seq<char>, i: int) -> int
    decreases path.len() - i,
{
    if 0 <= i < path.len() && path[i] == '/' {
        after_separators(path, i + 1)
    } else {
        i
    }
}

/// The first place at or after `i` that holds a separator, or the end.
pub open spec fn after_name(path: Seq<char>, i: int) -> int
    decreases path.len() - i,
{
    if 0 <= i < path.len() && path[i] != '/' {
        after_name(path, i + 1)
    } else {
        i
    }
}

/// Where the next component at or after `i` begins and ends. Separators
/// and components that are a single dot are passed over. The two are equal
/// where no component is left.
pub open spec fn next_component(path: Seq<char>, i: int) -> (int, int)
    decreases path.len() - i,
{
    let begin = after_separators(path, i);
    let end = after_name(path, begin);
    if end == begin + 1 && path[begin] == '.' && end > i && 0 <= i {
        next_component(path, end)
    } else {
        (begin, end)
    }
}

/// The length of the user's own directory in an absolute home directory
/// `home`: the root and the first two components of it. `None` where
/// `home` is not absolute or has fewer components.
pub open spec fn user_root_length(home: Seq<char>) -> Option<int> {
    if home.len() == 0 || home[0] != '/' {
        None
    } else {
        let first = next_component(home, 0);
        let second = next_component(home, first.1);
        if first.0 == first.1 || second.0 == second.1 {
            None
        } else {
            Some(second.1)
        }
    }
}

/// Whether `strategy` can place an endpoint for a user with the directory `dir`.
pub open spec fn resolvable(strategy: Strategy, dir: Seq<char>) -> bool {
    strategy == Strategy::GroupContainer ==> user_root_length(dir) is Some
}

/// The hashed segment of a pipe's name for a home directory whose path is
/// the bytes `home`.
pub open spec fn pipe_segment_of(home: Seq<u8>) -> Seq<char> {
    base64url(sha256(home))
}

/// The hashed segment of a pipe's name for the home directory `home`.
pub open spec fn pipe_segment(home: Seq<char>) -> Seq<char> {
    pipe_segment_of(encode_utf8(home))
}

/// The part of an endpoint that stands for the user.
pub open spec fn user_part(strategy: Strategy, dir: Seq<char>) -> Seq<char> {
    match strategy {
        Strategy::NamedPipe => pipe_prefix() + pipe_segment(dir),
        Strategy::GroupContainer => as_directory(
            dir.subrange(0, user_root_length(dir).unwrap_or(0)),
        ),
        Strategy::TemporaryDirectory => as_directory(dir),
        Strategy::CacheDirectory => as_directory(dir),
    }
}

/// What stands between the user's part of an endpoint and the channel name.
pub open spec fn infix(strategy: Strategy) -> Seq<char> {
    match strategy {
        Strategy::NamedPipe => pipe_infix(),
        Strategy::GroupContainer => group_container_infix(),
        Strategy::TemporaryDirectory => temporary_infix(),
        Strategy::CacheDirectory => cache_infix(),
    }
}

/// The endpoint of channel `name` for the user with directory `dir`.
pub open spec fn endpoint_of(strategy: Strategy, dir: Seq<char>, name: Seq<char>) -> Seq<char> {
    user_part(strategy, dir) + infix(strategy) + name
}

/// Two resolutions give the same endpoint exactly when they are made for
/// the same user: resolving again for one user gives the same endpoint, and
/// two users whose parts differ never share one.
pub proof fn lemma_endpoint_per_user(
    strategy: Strategy,
    dir: Seq<char>,
    other_dir: Seq<char>,
    name: Seq<char>,
)
    ensures
        endpoint_of(strategy, dir, name) == endpoint_of(strategy, other_dir, name) <==> user_part(
            strategy,
            dir,
        ) == user_part(strategy, other_dir),
{
    let a = user_part(strategy, dir);
    let b = user_part(strategy, other_dir);
    let tail = infix(strategy) + name;
    assert(endpoint_of(strategy, dir, name) =~= a + tail);
    assert(endpoint_of(strategy, other_dir, name) =~= b + tail);
    if a + tail == b + tail {
        assert((a + tail).len() == (b + tail).len());
        assert forall|i: int| 0 <= i < a.len() implies a[i] == b[i] by {
            assert((a + tail)[i] == a[i]);
            assert((b + tail)[i] == b[i]);
        }
        assert(a =~= b);
    }
}

/// Two channels of one user have different endpoints.
pub proof fn lemma_endpoint_per_channel(
    strategy: Strategy,
    dir: Seq<char>,
    name: Seq<char>,
    other_name: Seq<char>,
)
    ensures
        endpoint_of(strategy, dir, name) == endpoint_of(strategy, dir, other_name) <==> name
            == other_name,
{
    let head = user_part(strategy, dir) + infix(strategy);
    if head + name == head + other_name {
        assert((head + name).len() == (head + other_name).len());
        assert forall|i: int| 0 <= i < name.len() implies name[i] == other_name[i] by {
            assert((head + name)[head.len() + i] == name[i]);
            assert((head + other_name)[head.len() + i] == other_name[i]);
        }
        assert(name =~= other_name);
    }
}

/// The name of the pipe for the hashed segment `segment` and channel `name`.
pub fn pipe_path(segment: &str, name: &str) -> (endpoint: String)
    ensures
        endpoint@ == pipe_prefix() + segment@ + pipe_infix() + name@,
{
    let mut endpoint = String::from_str("\\\\.\\pipe\\");
    endpoint.append(segment);
    endpoint.append(".app.");
    endpoint.append(name);
    endpoint
}

/// The name of the pipe for channel `name` and a home directory whose path
/// is the bytes `home`: the home directory is hashed, so that the name holds
/// no character that a pipe's name may not hold and is of one length for
/// every user.
pub fn pipe_endpoint(home: &[u8], name: &str) -> (endpoint: String)
    ensures
        endpoint@ == pipe_prefix() + pipe_segment_of(home@) + pipe_infix() + name@,
        pipe_segment_of(home@).len() == 43,
{
    let digest = sha256_digest(home);
    let segment = base64url_encode(digest.as_slice());
    pipe_path(segment.as_str(), name)
}

/// The path of `rest` below the directory `dir`.
pub fn below(dir: &str, rest: &str) -> (joined: String)
    ensures
        joined@ == as_directory(dir@) + rest@,
{
    let mut joined = String::from_str(dir);
    let len = dir.unicode_len();
    if len > 0 && dir.get_char(len - 1) != '/' {
        joined.append("/");
        proof {
            reveal_strlit("/");
            assert("/"@ =~= seq!['/']);
            assert(dir@ + "/"@ =~= dir@.push('/'));
        }
    }
    joined.append(rest);
    joined
}

/// The first place at or after `from` that holds no separator.
fn skip_separators(path: &str, len: usize, from: usize) -> (to: usize)
    requires
        len == path@.len(),
        from <= len,
    ensures
        to == after_separators(path@, from as int),
        from <= to <= len,
{
    let mut i: usize = from;
    while i < len && path.get_char(i) == '/'
        invariant
            len == path@.len(),
            from <= i <= len,
            after_separators(path@, i as int) == after_separators(path@, from as int),
        decreases len - i,
    {
        i += 1;
    }
    i
}

/// The first place at or after `from` that holds a separator, or the end.
fn skip_name(path: &str, len: usize, from: usize) -> (to: usize)
    requires
        len == path@.len(),
        from <= len,
    ensures
        to == after_name(path@, from as int),
        from <= to <= len,
{
    let mut i: usize = from;
    while i < len && path.get_char(i) != '/'
        invariant
            len == path@.len(),
            from <= i <= len,
            after_name(path@, i as int) == after_name(path@, from as int),
        decreases len - i,
    {
        i += 1;
    }
    i
}

/// Where the next component at or after `from` begins and ends.
fn find_component(path: &str, len: usize, from: usize) -> (found: (usize, usize))
    requires
        len == path@.len(),
        from <= len,
    ensures
        (found.0 as int, found.1 as int) == next_component(path@, from as int),
        from <= found.0 <= found.1 <= len,
{
    let mut at: usize = from;
    loop
        invariant
            len == path@.len(),
            from <= at <= len,
            next_component(path@, at as int) == next_component(path@, from as int),
        decreases len - at,
    {
        let begin = skip_separators(path, len, at);
        let end = skip_name(path, len, begin);
        if end - begin == 1 && path.get_char(begin) == '.' {
            at = end;
        } else {
            return (begin, end);
        }
    }
}

/// The user's own directory in an absolute home directory: the root and the
/// first two components of it.
pub fn user_root(home: &str) -> (root: Option<String>)
    ensures
        root is Some <==> user_root_length(home@) is Some,
        root is Some ==> root->Some_0@ == home@.subrange(0, user_root_length(home@)->Some_0),
{
    let len = home.unicode_len();
    if len == 0 || home.get_char(0) != '/' {
        return None;
    }
    let first = find_component(home, len, 0);
    let second = find_component(home, len, first.1);
    if first.0 == first.1 || second.0 == second.1 {
        return None;
    }
    Some(String::from_str(home.substring_char(0, second.1)))
}

/// Resolves the endpoint of channel `name` for the user with directory
/// `user_dir`: the home directory for a named pipe and for the group
/// container, the temporary directory or the cache directory for the
/// other two. Only the group container can fail: on a home directory that
/// is not absolute or has fewer than two components below the root.
pub fn path(strategy: Strategy, user_dir: &str, name: &str) -> (endpoint: Option<String>)
    ensures
        endpoint is Some <==> resolvable(strategy, user_dir@),
        endpoint is Some ==> endpoint->Some_0@ == endpoint_of(strategy, user_dir@, name@),
{
    match strategy {
        Strategy::NamedPipe => Some(pipe_endpoint(user_dir.as_bytes(), name)),
        Strategy::GroupContainer => {
            match user_root(user_dir) {
                Some(root) => {
                    let mut endpoint = below(
                        root.as_str(),
                        "Library/Group Containers/LTZ2PFU5D6.com.bitwarden.desktop/tmp/app.",
                    );
                    endpoint.append(name);
                    Some(endpoint)
                },
                None => None,
            }
        },
        Strategy::TemporaryDirectory => {
            let mut endpoint = below(user_dir, "app.");
            endpoint.append(name);
            Some(endpoint)
        },
        Strategy::CacheDirectory => {
            let mut endpoint = below(user_dir, "com.bitwarden.desktop/app.");
            endpoint.append(name);
            Some(endpoint)
        },
    }
}

} // verus!
