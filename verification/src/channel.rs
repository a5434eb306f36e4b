//! Channel configuration data: the commands a channel runs to produce,
//! preview and act on its entries.

use vstd::prelude::*;
use crate::strings::str_eq;

verus! {

/// The delimiter used to split an entry's name into fields when a command
/// template asks for a single field.
pub const DEFAULT_DELIMITER: &'static str = " ";

/// A command template used to preview an entry, together with the delimiter
/// that splits the entry's name into the fields the template may refer to.
#[derive(Debug, Clone)]
pub struct PreviewCommand {
    pub command: String,
    pub delimiter: String,
}

impl PreviewCommand {
    pub fn new(command: &str, delimiter: &str) -> (r: Self)
        ensures
            r.command@ == command@,
            r.delimiter@ == delimiter@,
    {
        PreviewCommand { command: command.to_owned(), delimiter: delimiter.to_owned() }
    }

    /// The stock preview command for a channel of the given name.
    pub fn defaults(name: &str) -> (r: Self)
        ensures
            r.delimiter@ == DEFAULT_DELIMITER@,
            name@ == "files"@ ==> r.command@ == "bat {0}"@,
            name@ != "files"@ ==> r.command@ == "echo {}"@,
    {
        if str_eq(name, "files") {
            Self::new("bat {0}", DEFAULT_DELIMITER)
        } else {
            Self::new("echo {}", DEFAULT_DELIMITER)
        }
    }
}

/// A command a channel runs when an entry is confirmed.
#[derive(Debug, Clone)]
pub struct RunCommand {
    pub command: String,
    pub exit: bool,
    pub remove: Vec<String>,
}

/// A command that switches to another channel, seeded from the current entry.
#[derive(Debug, Clone)]
pub struct TransitionCommand {
    pub command: String,
    pub channel: String,
}

/// The declaration of one channel: where its entries come from and what can
/// be done with them.
#[derive(Debug, Clone)]
pub struct ChannelConfig {
    pub name: String,
    pub source_command: String,
    pub preview_command: Vec<String>,
    pub delimiter: String,
    pub run_command: Vec<RunCommand>,
    pub transition_command: Vec<TransitionCommand>,
    pub refresh: bool,
}

/// An early, flat form of a channel declaration.
#[derive(Debug, Clone)]
pub struct CableChannelPrototype {
    pub name: String,
    pub source_command: String,
    pub preview_command: Option<String>,
    pub preview_delimiter: Option<String>,
}

/// The delimiter a channel declaration gets when it names none.
pub fn default_delimiter() -> (r: String)
    ensures
        r@ == DEFAULT_DELIMITER@,
{
    DEFAULT_DELIMITER.to_owned()
}

/// The index just past the last occurrence of `c` (zero when there is none).
pub open spec fn after_last(s: Seq<char>, c: char) -> int
    decreases s.len(),
{
    if s.len() == 0 {
        0
    } else if s.last() == c {
        s.len() as int
    } else {
        after_last(s.drop_last(), c)
    }
}

/// ASCII letters lowered, everything else kept.
pub open spec fn ascii_lower(c: char) -> char {
    if 0x41 <= c as u32 <= 0x5A {
        (((c as u32) + 0x20) as u8) as char
    } else {
        c
    }
}

/// Whether a path names a channel declaration file: the file's stem ends in
/// `channels` and its extension, lowered, is `toml`.
pub open spec fn is_cable_file(path: Seq<char>) -> bool {
    let name = path.skip(after_last(path, '/'));
    let dot = after_last(name, '.');
    let stem = if dot > 1 {
        name.take(dot - 1)
    } else {
        name
    };
    let ext = if dot > 1 {
        name.skip(dot)
    } else {
        Seq::empty()
    };
    &&& stem.len() >= "channels"@.len()
    &&& stem.skip(stem.len() - "channels"@.len()) == "channels"@
    &&& ext.map_values(|c: char| ascii_lower(c)) == "toml"@
}

/// Decide whether a path names a channel declaration file (see
/// `is_cable_file`).
pub fn is_cable_file_format(p: &str) -> (r: bool)
    ensures
        r == is_cable_file(p@),
{
    let chars = crate::strings::str_chars(p);
    let n = chars.len();
    proof {
        assert(chars@.take(n as int) =~= chars@);
    }
    // the file name: everything after the last slash
    let mut name_start: usize = n;
    while name_start > 0 && chars[name_start - 1] != '/'
        invariant
            name_start <= n == chars@.len(),
            after_last(chars@, '/') == after_last(chars@.take(name_start as int), '/'),
            forall|j: int| name_start <= j < n ==> chars@[j] != '/',
        decreases name_start,
    {
        proof {
            assert(chars@.take(name_start as int).drop_last() =~= chars@.take(name_start - 1));
        }
        name_start = name_start - 1;
    }
    proof {
        if name_start > 0 {
            assert(chars@.take(name_start as int).last() == chars@[name_start - 1]);
        } else {
            assert(chars@.take(0) =~= Seq::<char>::empty());
        }
        assert(after_last(chars@, '/') == name_start as int);
    }
    let ghost name = chars@.skip(name_start as int);
    // the last dot within the file name
    proof {
        assert(name.take(n - name_start) =~= name);
        assert(forall|j: int| 0 <= j < name.len() ==> name[j] == chars@[name_start + j]);
    }
    let mut dot: usize = n;
    while dot > name_start && chars[dot - 1] != '.'
        invariant
            name_start <= dot <= n == chars@.len(),
            name == chars@.skip(name_start as int),
            after_last(name, '.') == after_last(name.take(dot - name_start), '.'),
            forall|j: int| dot <= j < n ==> chars@[j] != '.',
        decreases dot,
    {
        proof {
            assert(name.take(dot - name_start).drop_last() =~= name.take(dot - 1 - name_start));
            assert(name.take(dot - name_start).last() == chars@[dot - 1]);
        }
        dot = dot - 1;
    }
    proof {
        if dot > name_start {
            assert(name.take(dot - name_start).last() == chars@[dot - 1]);
        } else {
            assert(name.take(0) =~= Seq::<char>::empty());
        }
        assert(after_last(name, '.') == dot - name_start);
    }
    let (stem_end, has_ext) = if dot - name_start > 1 {
        (dot - 1, true)
    } else {
        (n, false)
    };
    if !has_ext {
        proof {
            assert(Seq::<char>::empty().map_values(|c: char| ascii_lower(c)) =~= Seq::<
                char,
            >::empty());
            reveal_strlit("toml");
        }
        return false;
    }
    // the stem must end in the marker
    let marker = crate::strings::str_chars("channels");
    let m = marker.len();
    proof {
        reveal_strlit("channels");
        assert(marker@ == "channels"@);
    }
    if stem_end - name_start < m {
        return false;
    }
    let base = stem_end - m;
    for k in 0..m
        invariant
            chars@ == p@,
            m == marker@.len(),
            marker@ == "channels"@,
            name_start <= base,
            base + m == stem_end <= n == chars@.len(),
            stem_end == dot - 1,
            dot - name_start > 1,
            name == chars@.skip(name_start as int),
            after_last(chars@, '/') == name_start as int,
            after_last(name, '.') == dot - name_start,
            forall|j: int| 0 <= j < k ==> chars@[base + j] == marker@[j],
    {
        if chars[base + k] != marker[k] {
            proof {
                let stem = name.take(stem_end - name_start);
                assert(stem.skip(stem.len() - m)[k as int] == chars@[base + k]);
            }
            return false;
        }
    }
    proof {
        let stem = name.take(stem_end - name_start);
        assert(stem.skip(stem.len() - m) =~= "channels"@);
    }
    // the extension, lowered, must be the declaration format
    let fmt = crate::strings::str_chars("toml");
    proof {
        reveal_strlit("toml");
        assert(fmt@ == "toml"@);
    }
    let ghost ext = name.skip(dot - name_start);
    if n - dot != fmt.len() {
        proof {
            assert(ext.map_values(|c: char| ascii_lower(c)).len() == ext.len());
        }
        return false;
    }
    for k in 0..(n - dot)
        invariant
            chars@ == p@,
            fmt@ == "toml"@,
            marker@ == "channels"@,
            n - dot == fmt@.len(),
            dot <= n == chars@.len(),
            name == chars@.skip(name_start as int),
            dot - name_start > 1,
            after_last(chars@, '/') == name_start as int,
            after_last(name, '.') == dot - name_start,
            ext == name.skip(dot - name_start),
            name.take(dot - 1 - name_start).skip(name.take(dot - 1 - name_start).len()
                - marker@.len()) == "channels"@,
            forall|j: int| 0 <= j < k ==> ascii_lower(#[trigger] ext[j]) == fmt@[j],
    {
        let c = chars[dot + k];
        let u = c as u32;
        let lowered: char = if 0x41 <= u && u <= 0x5A {
            ((u + 0x20) as u8) as char
        } else {
            c
        };
        proof {
            assert(ext[k as int] == chars@[dot + k]);
        }
        if lowered != fmt[k] {
            proof {
                assert(ext.map_values(|ch: char| ascii_lower(ch))[k as int] != fmt@[k as int]);
            }
            return false;
        }
    }
    proof {
        assert(ext.map_values(|ch: char| ascii_lower(ch)) =~= "toml"@);
    }
    true
}

} // verus!
