//! File system paths as the bytes that the system keeps.

use vstd::prelude::*;
use vstd::slice::slice_to_vec;
#[allow(unused_imports)]
use vstd::utf8::{encode_utf8, is_ascii_chars, is_ascii_chars_encode_utf8};

use crate::error::Error;
#[allow(unused_imports)]
use crate::error::ErrorView;
#[allow(unused_imports)]
use crate::text::lossy_text;
use crate::text::read_lossy;

verus! {

/// A path, as the bytes that the system keeps.
#[derive(Debug)]
pub struct NativePath {
    pub bytes: Vec<u8>,
}

impl View for NativePath {
    type V = Seq<u8>;

    open spec fn view(&self) -> Seq<u8> {
        self.bytes@
    }
}

/// The view of an optional path.
pub open spec fn opt_path(p: Option<NativePath>) -> Option<Seq<u8>> {
    match p {
        Some(p) => Some(p@),
        None => None,
    }
}

/// The byte that separates the components of a path.
pub open spec fn separator() -> u8 {
    '/' as u8
}

/// `base`, and in it the component `name`.
pub open spec fn joined(base: Seq<u8>, name: Seq<char>) -> Seq<u8> {
    if base.len() == 0 || base.last() == separator() {
        base + encode_utf8(name)
    } else {
        base + seq![separator()] + encode_utf8(name)
    }
}

/// Where the configuration file stands in a home directory.
pub open spec fn config_path_in(home: Seq<u8>) -> Seq<u8> {
    joined(joined(joined(home, ".config"@), "mnemo"@), "config.toml"@)
}

/// Where the control socket stands in a home directory.
pub open spec fn socket_path_in(home: Seq<u8>) -> Seq<u8> {
    joined(joined(joined(joined(home, ".local"@), "state"@), "mnemo"@), "mnemo.sock"@)
}

impl NativePath {
    /// Whether the path has no byte.
    pub fn is_empty(&self) -> (empty: bool)
        ensures
            empty == (self@.len() == 0),
    {
        self.bytes.len() == 0
    }

    /// A path with the same bytes.
    pub fn copy(&self) -> (p: NativePath)
        ensures
            p@ == self@,
    {
        NativePath { bytes: slice_to_vec(self.bytes.as_slice()) }
    }

    /// The path of a component in this directory.
    fn join(&self, name: &str) -> (p: NativePath)
        ensures
            p@ == joined(self@, name@),
    {
        let mut bytes: Vec<u8> = slice_to_vec(self.bytes.as_slice());
        if bytes.len() > 0 && bytes[bytes.len() - 1] != '/' as u8 {
            bytes.push('/' as u8);
        }
        bytes.extend_from_slice(name.as_bytes());
        NativePath { bytes }
    }

    /// The path as the user reads it.
    pub fn display(&self) -> (text: String)
        ensures
            text@ == lossy_text(self@),
            forall|t: Seq<char>| self@ == #[trigger] encode_utf8(t) ==> text@ == t,
    {
        read_lossy(self.bytes.as_slice())
    }
}

/// The default place of the configuration file.
pub fn default_config_path(home: &Option<NativePath>) -> (r: Result<NativePath, Error>)
    ensures
        match (*home, r) {
            (Some(dir), Ok(path)) => path@ == config_path_in(dir@),
            (None, Err(e)) => e@ == ErrorView::HomeNotSet,
            _ => false,
        },
{
    match home {
        Some(dir) => Ok(dir.join(".config").join("mnemo").join("config.toml")),
        None => Err(Error::HomeNotSet),
    }
}

/// The default place of the control socket.
pub fn default_socket_path(home: &Option<NativePath>) -> (r: Result<NativePath, Error>)
    ensures
        match (*home, r) {
            (Some(dir), Ok(path)) => path@ == socket_path_in(dir@),
            (None, Err(e)) => e@ == ErrorView::HomeNotSet,
            _ => false,
        },
{
    match home {
        Some(dir) => Ok(dir.join(".local").join("state").join("mnemo").join("mnemo.sock")),
        None => Err(Error::HomeNotSet),
    }
}

/// The bytes of an ASCII text are its characters.
proof fn lemma_ascii_bytes(text: Seq<char>)
    requires
        is_ascii_chars(text),
    ensures
        encode_utf8(text).len() == text.len(),
        forall|i: int| 0 <= i < text.len() ==> #[trigger] encode_utf8(text)[i] == text[i] as u8,
{
    is_ascii_chars_encode_utf8(text);
}

/// The bytes of two ASCII texts, one after the other.
proof fn lemma_ascii_bytes_of_two(a: Seq<char>, b: Seq<char>)
    requires
        is_ascii_chars(a),
        is_ascii_chars(b),
    ensures
        is_ascii_chars(a + b),
        encode_utf8(a + b) == encode_utf8(a) + encode_utf8(b),
{
    assert(is_ascii_chars(a + b)) by {
        assert forall|i: int| 0 <= i < (a + b).len() implies '\0' <= #[trigger] (a + b)[i]
            <= '\u{7f}' by {
            if i < a.len() {
                assert((a + b)[i] == a[i]);
            } else {
                assert((a + b)[i] == b[i - a.len()]);
            }
        }
    }
    lemma_ascii_bytes(a);
    lemma_ascii_bytes(b);
    lemma_ascii_bytes(a + b);
    assert forall|i: int| 0 <= i < (a + b).len() implies encode_utf8(a + b)[i] == (encode_utf8(a)
        + encode_utf8(b))[i] by {
        assert(encode_utf8(a + b)[i] == (a + b)[i] as u8);
    }
    assert(encode_utf8(a + b) == encode_utf8(a) + encode_utf8(b));
}

/// A component is put behind a directory with one separator between them, whether or not the
/// directory ends with one; behind nothing it stands alone.
pub proof fn law_joining(base: Seq<u8>, name: Seq<char>)
    ensures
        base.len() == 0 ==> joined(base, name) == encode_utf8(name),
        base.len() > 0 && base.last() == '/' as u8 ==> joined(base, name) == base + encode_utf8(
            name,
        ),
        base.len() > 0 && base.last() != '/' as u8 ==> joined(base, name) == base.push('/' as u8)
            + encode_utf8(name),
{
    if base.len() == 0 {
        assert(base + encode_utf8(name) == encode_utf8(name));
    } else {
        assert(base + seq!['/' as u8] == base.push('/' as u8));
    }
}

proof fn lemma_joined_ascii(base: Seq<u8>, path: Seq<char>, name: Seq<char>)
    requires
        is_ascii_chars(path),
        is_ascii_chars(name),
        path.len() > 0,
        path[path.len() - 1] != '/',
    ensures
        joined(base + encode_utf8(path), name) == base + encode_utf8(path + seq!['/'] + name),
        is_ascii_chars(path + seq!['/'] + name),
{
    lemma_ascii_bytes(path);
    lemma_ascii_bytes_of_two(path, seq!['/']);
    lemma_ascii_bytes_of_two(path + seq!['/'], name);
    lemma_ascii_bytes(seq!['/']);
    let whole = base + encode_utf8(path);
    let n = path.len() - 1;
    assert(whole.last() == encode_utf8(path)[n]);
    assert(encode_utf8(path)[n] == path[n] as u8);
    assert(path[n] as u8 != '/' as u8) by {
        let c = path[n];
        assert('\0' <= c <= '\u{7f}');
    }
    assert(encode_utf8(seq!['/']) == seq!['/' as u8]);
    assert(joined(whole, name) == base + encode_utf8(path + seq!['/'] + name));
}

/// In a home directory that does not end with a separator, the configuration file is
/// `.config/mnemo/config.toml`, and the socket is `.local/state/mnemo/mnemo.sock`.
pub proof fn law_default_paths(home: Seq<u8>)
    requires
        home.len() > 0,
        home.last() != '/' as u8,
    ensures
        config_path_in(home) == home.push('/' as u8) + encode_utf8(".config/mnemo/config.toml"@),
        socket_path_in(home) == home.push('/' as u8) + encode_utf8(
            ".local/state/mnemo/mnemo.sock"@,
        ),
{
    reveal_strlit(".config");
    reveal_strlit("mnemo");
    reveal_strlit("config.toml");
    reveal_strlit(".config/mnemo/config.toml");
    reveal_strlit(".local");
    reveal_strlit("state");
    reveal_strlit("mnemo.sock");
    reveal_strlit(".local/state/mnemo/mnemo.sock");
    let base = home.push('/' as u8);
    law_joining(home, ".config"@);
    law_joining(home, ".local"@);
    lemma_joined_ascii(base, ".config"@, "mnemo"@);
    let a = ".config"@ + seq!['/'] + "mnemo"@;
    assert(a[a.len() - 1] == 'o');
    lemma_joined_ascii(base, a, "config.toml"@);
    assert(a + seq!['/'] + "config.toml"@ == ".config/mnemo/config.toml"@);
    lemma_joined_ascii(base, ".local"@, "state"@);
    let b = ".local"@ + seq!['/'] + "state"@;
    assert(b[b.len() - 1] == 'e');
    lemma_joined_ascii(base, b, "mnemo"@);
    let c = b + seq!['/'] + "mnemo"@;
    assert(c[c.len() - 1] == 'o');
    lemma_joined_ascii(base, c, "mnemo.sock"@);
    assert(c + seq!['/'] + "mnemo.sock"@ == ".local/state/mnemo/mnemo.sock"@);
}

/// The view of an optional path is its bytes, if there is one.
pub proof fn law_view_of_an_optional_path(path: Option<NativePath>)
    ensures
        opt_path(path) is Some <==> path is Some,
        path is Some ==> opt_path(path)->0 == path->0.bytes@,
{
}

} // verus!
