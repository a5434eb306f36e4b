//! Small application utilities: metadata, shells, file kinds, and the
//! splitting of match indices between an entry's name and its value.

use vstd::prelude::*;

verus! {

/// What the application reports about itself.
#[derive(Debug, Clone)]
pub struct AppMetadata {
    pub version: String,
    pub current_directory: String,
}

impl AppMetadata {
    pub fn new(version: String, current_directory: String) -> (r: Self)
        ensures
            r.version == version,
            r.current_directory == current_directory,
    {
        AppMetadata { version, current_directory }
    }
}

/// The shells completion scripts exist for.
#[derive(Debug, Clone, Copy, PartialEq, Eq, Structural)]
pub enum Shell {
    Bash,
    Zsh,
    Fish,
    PowerShell,
    Cmd,
}

/// What kind of content a file holds, as far as previewing cares.
#[derive(Debug, Clone, Copy, PartialEq, Eq, Structural)]
pub enum FileType {
    Text,
    Other,
    Unknown,
}

/// Strictly increasing: sorted with no duplicates.
pub open spec fn strictly_sorted(v: Seq<u32>) -> bool {
    forall|i: int, j: int| 0 <= i < j < v.len() ==> v[i] < v[j]
}

/// Insert `x` into the strictly sorted `v`, keeping it strictly sorted; a
/// value already present is left alone.
fn insert_sorted_unique(v: &mut Vec<u32>, x: u32)
    requires
        strictly_sorted(old(v)@),
    ensures
        strictly_sorted(final(v)@),
        forall|y: u32| #[trigger] final(v)@.contains(y) <==> (old(v)@.contains(y) || y == x),
{
    let n = v.len();
    let ghost v0 = v@;
    let mut i: usize = 0;
    while i < n && v[i] < x
        invariant
            i <= n == v@.len(),
            v@ == v0,
            strictly_sorted(v0),
            forall|j: int| 0 <= j < i ==> v0[j] < x,
        decreases n - i,
    {
        i = i + 1;
    }
    if i < n && v[i] == x {
        proof {
            assert(v0.contains(x)) by {
                assert(v0[i as int] == x);
            }
        }
        return ;
    }
    v.insert(i, x);
    proof {
        assert(v@ =~= v0.insert(i as int, x));
        assert forall|y: u32| v@.contains(y) implies (v0.contains(y) || y == x) by {
            let k = choose|k: int| 0 <= k < v@.len() && v@[k] == y;
            if k < i {
                assert(v0[k] == y);
            } else if k > i {
                assert(v0[k - 1] == y);
            }
        }
        assert forall|y: u32| (v0.contains(y) || y == x) implies v@.contains(y) by {
            if y == x {
                assert(v@[i as int] == y);
            } else {
                let k = choose|k: int| 0 <= k < v0.len() && v0[k] == y;
                if k < i {
                    assert(v@[k] == y);
                } else {
                    assert(v@[k + 1] == y);
                }
            }
        }
        assert(forall|y: u32| #[trigger] v@.contains(y) <==> (v0.contains(y) || y == x));
        assert forall|a: int, b: int| 0 <= a < b < v@.len() implies v@[a] < v@[b] by {
            if b == i {
                assert(v@[a] == v0[a] && v0[a] < x);
            } else if a == i {
                assert(v@[b] == v0[b - 1]);
                if i < n {
                    assert(x < v0[i as int] || x == v0[i as int] || v0[i as int] < x);
                    assert(!(v0[i as int] < x) && v0[i as int] != x);
                    if b - 1 > i {
                        assert(v0[i as int] < v0[b - 1]);
                    }
                }
            }
        }
    }
}

/// Split raw match indices between an entry's name and its value: indices
/// below `name_len` belong to the name, the rest (shifted back by
/// `name_len`) to the value. Each side comes back sorted and without
/// duplicates, with a flag saying whether it got anything; the input is
/// drained.
pub fn sep_name_and_value_indices(indices: &mut Vec<u32>, name_len: u32) -> (r: (
    Vec<u32>,
    Vec<u32>,
    bool,
    bool,
))
    ensures
        final(indices)@ == Seq::<u32>::empty(),
        strictly_sorted(r.0@),
        strictly_sorted(r.1@),
        forall|y: u32| #[trigger] r.0@.contains(y) <==> (old(indices)@.contains(y) && y < name_len),
        forall|y: u32|
            #[trigger] r.1@.contains(y) <==> (exists|k: int|
                0 <= k < old(indices)@.len() && #[trigger] old(indices)@[k] >= name_len && old(
                    indices,
                )@[k] - name_len == y),
        r.2 == (exists|k: int|
            0 <= k < old(indices)@.len() && #[trigger] old(indices)@[k] < name_len),
        r.3 == (exists|k: int|
            0 <= k < old(indices)@.len() && #[trigger] old(indices)@[k] >= name_len),
{
    let ghost input = indices@;
    let mut name_indices: Vec<u32> = Vec::new();
    let mut value_indices: Vec<u32> = Vec::new();
    let mut should_add_name_indices = false;
    let mut should_add_value_indices = false;

    let n = indices.len();
    for i in 0..n
        invariant
            n == input.len(),
            indices@ == input,
            strictly_sorted(name_indices@),
            strictly_sorted(value_indices@),
            forall|y: u32|
                #[trigger] name_indices@.contains(y) <==> (input.take(i as int).contains(y) && y
                    < name_len),
            forall|y: u32|
                #[trigger] value_indices@.contains(y) <==> (exists|k: int|
                    0 <= k < i && #[trigger] input[k] >= name_len && input[k] - name_len == y),
            should_add_name_indices == (exists|k: int|
                0 <= k < i && #[trigger] input[k] < name_len),
            should_add_value_indices == (exists|k: int|
                0 <= k < i && #[trigger] input[k] >= name_len),
    {
        let x = indices[i];
        let ghost pre_name = name_indices@;
        let ghost pre_value = value_indices@;
        if x < name_len {
            insert_sorted_unique(&mut name_indices, x);
            should_add_name_indices = true;
        } else {
            insert_sorted_unique(&mut value_indices, x - name_len);
            should_add_value_indices = true;
        }
        proof {
            assert(input.take(i + 1).drop_last() =~= input.take(i as int));
            assert(input.take(i + 1).last() == input[i as int]);
            assert forall|y: u32|
                input.take(i + 1).contains(y) <==> (input.take(i as int).contains(y) || y
                    == input[i as int]) by {
                if input.take(i + 1).contains(y) {
                    let k = choose|k: int|
                        0 <= k < input.take(i + 1).len() && #[trigger] input.take(i + 1)[k] == y;
                    if k < i {
                        assert(input.take(i as int)[k] == y);
                    }
                } else {
                }
                if input.take(i as int).contains(y) {
                    let k = choose|k: int|
                        0 <= k < input.take(i as int).len() && #[trigger] input.take(i as int)[k]
                            == y;
                    assert(input.take(i + 1)[k] == y);
                }
                if y == input[i as int] {
                    assert(input.take(i + 1)[i as int] == y);
                }
            }
        }
    }
    indices.clear();
    proof {
        assert(input.take(n as int) =~= input);
        assert forall|y: u32|
            name_indices@.contains(y) <==> (input.contains(y) && y < name_len) by {}
    }
    (name_indices, value_indices, should_add_name_indices, should_add_value_indices)
}


/// The file-name extension of a path: what follows the last dot of the last
/// path component, provided something precedes that dot; empty otherwise.
pub open spec fn spec_extension(path: Seq<char>) -> Seq<char> {
    let name = path.skip(crate::channel::after_last(path, '/'));
    let dot = crate::channel::after_last(name, '.');
    if dot > 1 {
        name.skip(dot)
    } else {
        Seq::empty()
    }
}

/// The extensions of files that are previewed as text.
pub open spec fn is_known_text_ext(e: Seq<char>) -> bool {
    ||| e == "ada"@
    ||| e == "adb"@
    ||| e == "ads"@
    ||| e == "applescript"@
    ||| e == "as"@
    ||| e == "asc"@
    ||| e == "ascii"@
    ||| e == "ascx"@
    ||| e == "asm"@
    ||| e == "asmx"@
    ||| e == "asp"@
    ||| e == "aspx"@
    ||| e == "atom"@
    ||| e == "au3"@
    ||| e == "awk"@
    ||| e == "bas"@
    ||| e == "bash"@
    ||| e == "bashrc"@
    ||| e == "bat"@
    ||| e == "bbcolors"@
    ||| e == "bcp"@
    ||| e == "bdsgroup"@
    ||| e == "bdsproj"@
    ||| e == "bib"@
    ||| e == "bowerrc"@
    ||| e == "c"@
    ||| e == "cbl"@
    ||| e == "cc"@
    ||| e == "cfc"@
    ||| e == "cfg"@
    ||| e == "cfm"@
    ||| e == "cfml"@
    ||| e == "cgi"@
    ||| e == "cjs"@
    ||| e == "clj"@
    ||| e == "cljs"@
    ||| e == "cls"@
    ||| e == "cmake"@
    ||| e == "cmd"@
    ||| e == "cnf"@
    ||| e == "cob"@
    ||| e == "code-snippets"@
    ||| e == "coffee"@
    ||| e == "coffeekup"@
    ||| e == "conf"@
    ||| e == "cp"@
    ||| e == "cpp"@
    ||| e == "cpt"@
    ||| e == "cpy"@
    ||| e == "crt"@
    ||| e == "cs"@
    ||| e == "csh"@
    ||| e == "cson"@
    ||| e == "csproj"@
    ||| e == "csr"@
    ||| e == "css"@
    ||| e == "csslintrc"@
    ||| e == "csv"@
    ||| e == "ctl"@
    ||| e == "curlrc"@
    ||| e == "cxx"@
    ||| e == "d"@
    ||| e == "dart"@
    ||| e == "dfm"@
    ||| e == "diff"@
    ||| e == "dof"@
    ||| e == "dpk"@
    ||| e == "dpr"@
    ||| e == "dproj"@
    ||| e == "dtd"@
    ||| e == "eco"@
    ||| e == "editorconfig"@
    ||| e == "ejs"@
    ||| e == "el"@
    ||| e == "elm"@
    ||| e == "emacs"@
    ||| e == "eml"@
    ||| e == "ent"@
    ||| e == "erb"@
    ||| e == "erl"@
    ||| e == "eslintignore"@
    ||| e == "eslintrc"@
    ||| e == "ex"@
    ||| e == "exs"@
    ||| e == "f"@
    ||| e == "f03"@
    ||| e == "f77"@
    ||| e == "f90"@
    ||| e == "f95"@
    ||| e == "fish"@
    ||| e == "for"@
    ||| e == "fpp"@
    ||| e == "frm"@
    ||| e == "fs"@
    ||| e == "fsproj"@
    ||| e == "fsx"@
    ||| e == "ftn"@
    ||| e == "gemrc"@
    ||| e == "gemspec"@
    ||| e == "gitattributes"@
    ||| e == "gitconfig"@
    ||| e == "gitignore"@
    ||| e == "gitkeep"@
    ||| e == "gitmodules"@
    ||| e == "go"@
    ||| e == "gpp"@
    ||| e == "gradle"@
    ||| e == "graphql"@
    ||| e == "groovy"@
    ||| e == "groupproj"@
    ||| e == "grunit"@
    ||| e == "gtmpl"@
    ||| e == "gvimrc"@
    ||| e == "h"@
    ||| e == "haml"@
    ||| e == "hbs"@
    ||| e == "hgignore"@
    ||| e == "hh"@
    ||| e == "hpp"@
    ||| e == "hrl"@
    ||| e == "hs"@
    ||| e == "hta"@
    ||| e == "htaccess"@
    ||| e == "htc"@
    ||| e == "htm"@
    ||| e == "html"@
    ||| e == "htpasswd"@
    ||| e == "hxx"@
    ||| e == "iced"@
    ||| e == "iml"@
    ||| e == "inc"@
    ||| e == "inf"@
    ||| e == "info"@
    ||| e == "ini"@
    ||| e == "ino"@
    ||| e == "int"@
    ||| e == "irbrc"@
    ||| e == "itcl"@
    ||| e == "itermcolors"@
    ||| e == "itk"@
    ||| e == "jade"@
    ||| e == "java"@
    ||| e == "jhtm"@
    ||| e == "jhtml"@
    ||| e == "js"@
    ||| e == "jscsrc"@
    ||| e == "jshintignore"@
    ||| e == "jshintrc"@
    ||| e == "json"@
    ||| e == "json5"@
    ||| e == "jsonld"@
    ||| e == "jsp"@
    ||| e == "jspx"@
    ||| e == "jsx"@
    ||| e == "ksh"@
    ||| e == "less"@
    ||| e == "lhs"@
    ||| e == "lisp"@
    ||| e == "log"@
    ||| e == "ls"@
    ||| e == "lsp"@
    ||| e == "lua"@
    ||| e == "m"@
    ||| e == "m4"@
    ||| e == "mak"@
    ||| e == "map"@
    ||| e == "markdown"@
    ||| e == "master"@
    ||| e == "md"@
    ||| e == "mdown"@
    ||| e == "mdwn"@
    ||| e == "mdx"@
    ||| e == "metadata"@
    ||| e == "mht"@
    ||| e == "mhtml"@
    ||| e == "mjs"@
    ||| e == "mk"@
    ||| e == "mkd"@
    ||| e == "mkdn"@
    ||| e == "mkdown"@
    ||| e == "ml"@
    ||| e == "mli"@
    ||| e == "mm"@
    ||| e == "mxml"@
    ||| e == "nfm"@
    ||| e == "nfo"@
    ||| e == "noon"@
    ||| e == "npmignore"@
    ||| e == "npmrc"@
    ||| e == "nuspec"@
    ||| e == "nvmrc"@
    ||| e == "ops"@
    ||| e == "pas"@
    ||| e == "pasm"@
    ||| e == "patch"@
    ||| e == "pbxproj"@
    ||| e == "pch"@
    ||| e == "pem"@
    ||| e == "pg"@
    ||| e == "php"@
    ||| e == "php3"@
    ||| e == "php4"@
    ||| e == "php5"@
    ||| e == "phpt"@
    ||| e == "phtml"@
    ||| e == "pir"@
    ||| e == "pl"@
    ||| e == "pm"@
    ||| e == "pmc"@
    ||| e == "pod"@
    ||| e == "pot"@
    ||| e == "prettierrc"@
    ||| e == "properties"@
    ||| e == "props"@
    ||| e == "pt"@
    ||| e == "pug"@
    ||| e == "purs"@
    ||| e == "py"@
    ||| e == "pyx"@
    ||| e == "r"@
    ||| e == "rake"@
    ||| e == "rb"@
    ||| e == "rbw"@
    ||| e == "rc"@
    ||| e == "rdoc"@
    ||| e == "rdoc_options"@
    ||| e == "resx"@
    ||| e == "rexx"@
    ||| e == "rhtml"@
    ||| e == "rjs"@
    ||| e == "rlib"@
    ||| e == "ron"@
    ||| e == "rs"@
    ||| e == "rss"@
    ||| e == "rst"@
    ||| e == "rtf"@
    ||| e == "rvmrc"@
    ||| e == "rxml"@
    ||| e == "s"@
    ||| e == "sass"@
    ||| e == "scala"@
    ||| e == "scm"@
    ||| e == "scss"@
    ||| e == "seestyle"@
    ||| e == "sh"@
    ||| e == "shtml"@
    ||| e == "sln"@
    ||| e == "sls"@
    ||| e == "spec"@
    ||| e == "sql"@
    ||| e == "sqlite"@
    ||| e == "sqlproj"@
    ||| e == "srt"@
    ||| e == "ss"@
    ||| e == "sss"@
    ||| e == "st"@
    ||| e == "strings"@
    ||| e == "sty"@
    ||| e == "styl"@
    ||| e == "stylus"@
    ||| e == "sub"@
    ||| e == "sublime-build"@
    ||| e == "sublime-commands"@
    ||| e == "sublime-completions"@
    ||| e == "sublime-keymap"@
    ||| e == "sublime-macro"@
    ||| e == "sublime-menu"@
    ||| e == "sublime-project"@
    ||| e == "sublime-settings"@
    ||| e == "sublime-workspace"@
    ||| e == "sv"@
    ||| e == "svc"@
    ||| e == "svg"@
    ||| e == "swift"@
    ||| e == "t"@
    ||| e == "tcl"@
    ||| e == "tcsh"@
    ||| e == "terminal"@
    ||| e == "tex"@
    ||| e == "text"@
    ||| e == "textile"@
    ||| e == "tg"@
    ||| e == "tk"@
    ||| e == "tmLanguage"@
    ||| e == "tmpl"@
    ||| e == "tmTheme"@
    ||| e == "toml"@
    ||| e == "tpl"@
    ||| e == "ts"@
    ||| e == "tsv"@
    ||| e == "tsx"@
    ||| e == "tt"@
    ||| e == "tt2"@
    ||| e == "ttml"@
    ||| e == "twig"@
    ||| e == "txt"@
    ||| e == "v"@
    ||| e == "vb"@
    ||| e == "vbproj"@
    ||| e == "vbs"@
    ||| e == "vcproj"@
    ||| e == "vcxproj"@
    ||| e == "vh"@
    ||| e == "vhd"@
    ||| e == "vhdl"@
    ||| e == "vim"@
    ||| e == "viminfo"@
    ||| e == "vimrc"@
    ||| e == "vm"@
    ||| e == "vue"@
    ||| e == "webapp"@
    ||| e == "webmanifest"@
    ||| e == "wsc"@
    ||| e == "x-php"@
    ||| e == "xaml"@
    ||| e == "xht"@
    ||| e == "xhtml"@
    ||| e == "xml"@
    ||| e == "xs"@
    ||| e == "xsd"@
    ||| e == "xsl"@
    ||| e == "xslt"@
    ||| e == "y"@
    ||| e == "yaml"@
    ||| e == "yml"@
    ||| e == "zsh"@
    ||| e == "zshrc"@
}

/// The file-name extension of `p`, as `spec_extension` defines it.
fn extension_chars(p: &str) -> (r: Vec<char>)
    ensures
        r@ == spec_extension(p@),
{
    let chars = crate::strings::str_chars(p);
    let n = chars.len();
    proof {
        assert(chars@.take(n as int) =~= chars@);
    }
    let mut name_start: usize = n;
    while name_start > 0 && chars[name_start - 1] != '/'
        invariant
            name_start <= n == chars@.len(),
            crate::channel::after_last(chars@, '/') == crate::channel::after_last(
                chars@.take(name_start as int),
                '/',
            ),
        decreases name_start,
    {
        proof {
            assert(chars@.take(name_start as int).drop_last() =~= chars@.take(name_start - 1));
            assert(chars@.take(name_start as int).last() == chars@[name_start - 1]);
        }
        name_start = name_start - 1;
    }
    proof {
        if name_start > 0 {
            assert(chars@.take(name_start as int).last() == chars@[name_start - 1]);
        } else {
            assert(chars@.take(0) =~= Seq::<char>::empty());
        }
        assert(crate::channel::after_last(chars@, '/') == name_start as int);
    }
    let ghost name = chars@.skip(name_start as int);
    proof {
        assert(name.take(n - name_start) =~= name);
        assert(forall|j: int| 0 <= j < name.len() ==> name[j] == chars@[name_start + j]);
    }
    let mut dot: usize = n;
    while dot > name_start && chars[dot - 1] != '.'
        invariant
            name_start <= dot <= n == chars@.len(),
            name == chars@.skip(name_start as int),
            crate::channel::after_last(name, '.') == crate::channel::after_last(
                name.take(dot - name_start),
                '.',
            ),
        decreases dot,
    {
        proof {
            assert(name.take(dot - name_start).drop_last() =~= name.take(dot - 1 - name_start));
            assert(name.take(dot - name_start).last() == chars@[dot - 1]);
        }
        dot = dot - 1;
    }
    proof {
        if dot > name_start {
            assert(name.take(dot - name_start).last() == chars@[dot - 1]);
        } else {
            assert(name.take(0) =~= Seq::<char>::empty());
        }
        assert(crate::channel::after_last(name, '.') == dot - name_start);
    }
    let mut ext: Vec<char> = Vec::new();
    if dot - name_start > 1 {
        let mut k = dot;
        proof {
            assert(ext@ =~= name.subrange(dot - name_start, dot - name_start));
        }
        while k < n
            invariant
                dot <= k <= n == chars@.len(),
                name_start < dot,
                name == chars@.skip(name_start as int),
                ext@ == name.subrange(dot - name_start, k - name_start),
            decreases n - k,
        {
            ext.push(chars[k]);
            k = k + 1;
            proof {
                assert(ext@ =~= name.subrange(dot - name_start, k - name_start));
            }
        }
        proof {
            assert(name.subrange(dot - name_start, n - name_start) =~= name.skip(
                dot - name_start,
            ));
        }
    } else {
        proof {
            assert(ext@ =~= Seq::<char>::empty());
        }
    }
    ext
}

/// Whether the path's extension marks a file that is previewed as text.
pub fn is_known_text_extension(path: &str) -> (r: bool)
    ensures
        r == is_known_text_ext(spec_extension(path@)),
{
    let ext = extension_chars(path);
    if crate::style::chars_is(&ext, "ada") {
        true
    } else if crate::style::chars_is(&ext, "adb") {
        true
    } else if crate::style::chars_is(&ext, "ads") {
        true
    } else if crate::style::chars_is(&ext, "applescript") {
        true
    } else if crate::style::chars_is(&ext, "as") {
        true
    } else if crate::style::chars_is(&ext, "asc") {
        true
    } else if crate::style::chars_is(&ext, "ascii") {
        true
    } else if crate::style::chars_is(&ext, "ascx") {
        true
    } else if crate::style::chars_is(&ext, "asm") {
        true
    } else if crate::style::chars_is(&ext, "asmx") {
        true
    } else if crate::style::chars_is(&ext, "asp") {
        true
    } else if crate::style::chars_is(&ext, "aspx") {
        true
    } else if crate::style::chars_is(&ext, "atom") {
        true
    } else if crate::style::chars_is(&ext, "au3") {
        true
    } else if crate::style::chars_is(&ext, "awk") {
        true
    } else if crate::style::chars_is(&ext, "bas") {
        true
    } else if crate::style::chars_is(&ext, "bash") {
        true
    } else if crate::style::chars_is(&ext, "bashrc") {
        true
    } else if crate::style::chars_is(&ext, "bat") {
        true
    } else if crate::style::chars_is(&ext, "bbcolors") {
        true
    } else if crate::style::chars_is(&ext, "bcp") {
        true
    } else if crate::style::chars_is(&ext, "bdsgroup") {
        true
    } else if crate::style::chars_is(&ext, "bdsproj") {
        true
    } else if crate::style::chars_is(&ext, "bib") {
        true
    } else if crate::style::chars_is(&ext, "bowerrc") {
        true
    } else if crate::style::chars_is(&ext, "c") {
        true
    } else if crate::style::chars_is(&ext, "cbl") {
        true
    } else if crate::style::chars_is(&ext, "cc") {
        true
    } else if crate::style::chars_is(&ext, "cfc") {
        true
    } else if crate::style::chars_is(&ext, "cfg") {
        true
    } else if crate::style::chars_is(&ext, "cfm") {
        true
    } else if crate::style::chars_is(&ext, "cfml") {
        true
    } else if crate::style::chars_is(&ext, "cgi") {
        true
    } else if crate::style::chars_is(&ext, "cjs") {
        true
    } else if crate::style::chars_is(&ext, "clj") {
        true
    } else if crate::style::chars_is(&ext, "cljs") {
        true
    } else if crate::style::chars_is(&ext, "cls") {
        true
    } else if crate::style::chars_is(&ext, "cmake") {
        true
    } else if crate::style::chars_is(&ext, "cmd") {
        true
    } else if crate::style::chars_is(&ext, "cnf") {
        true
    } else if crate::style::chars_is(&ext, "cob") {
        true
    } else if crate::style::chars_is(&ext, "code-snippets") {
        true
    } else if crate::style::chars_is(&ext, "coffee") {
        true
    } else if crate::style::chars_is(&ext, "coffeekup") {
        true
    } else if crate::style::chars_is(&ext, "conf") {
        true
    } else if crate::style::chars_is(&ext, "cp") {
        true
    } else if crate::style::chars_is(&ext, "cpp") {
        true
    } else if crate::style::chars_is(&ext, "cpt") {
        true
    } else if crate::style::chars_is(&ext, "cpy") {
        true
    } else if crate::style::chars_is(&ext, "crt") {
        true
    } else if crate::style::chars_is(&ext, "cs") {
        true
    } else if crate::style::chars_is(&ext, "csh") {
        true
    } else if crate::style::chars_is(&ext, "cson") {
        true
    } else if crate::style::chars_is(&ext, "csproj") {
        true
    } else if crate::style::chars_is(&ext, "csr") {
        true
    } else if crate::style::chars_is(&ext, "css") {
        true
    } else if crate::style::chars_is(&ext, "csslintrc") {
        true
    } else if crate::style::chars_is(&ext, "csv") {
        true
    } else if crate::style::chars_is(&ext, "ctl") {
        true
    } else if crate::style::chars_is(&ext, "curlrc") {
        true
    } else if crate::style::chars_is(&ext, "cxx") {
        true
    } else if crate::style::chars_is(&ext, "d") {
        true
    } else if crate::style::chars_is(&ext, "dart") {
        true
    } else if crate::style::chars_is(&ext, "dfm") {
        true
    } else if crate::style::chars_is(&ext, "diff") {
        true
    } else if crate::style::chars_is(&ext, "dof") {
        true
    } else if crate::style::chars_is(&ext, "dpk") {
        true
    } else if crate::style::chars_is(&ext, "dpr") {
        true
    } else if crate::style::chars_is(&ext, "dproj") {
        true
    } else if crate::style::chars_is(&ext, "dtd") {
        true
    } else if crate::style::chars_is(&ext, "eco") {
        true
    } else if crate::style::chars_is(&ext, "editorconfig") {
        true
    } else if crate::style::chars_is(&ext, "ejs") {
        true
    } else if crate::style::chars_is(&ext, "el") {
        true
    } else if crate::style::chars_is(&ext, "elm") {
        true
    } else if crate::style::chars_is(&ext, "emacs") {
        true
    } else if crate::style::chars_is(&ext, "eml") {
        true
    } else if crate::style::chars_is(&ext, "ent") {
        true
    } else if crate::style::chars_is(&ext, "erb") {
        true
    } else if crate::style::chars_is(&ext, "erl") {
        true
    } else if crate::style::chars_is(&ext, "eslintignore") {
        true
    } else if crate::style::chars_is(&ext, "eslintrc") {
        true
    } else if crate::style::chars_is(&ext, "ex") {
        true
    } else if crate::style::chars_is(&ext, "exs") {
        true
    } else if crate::style::chars_is(&ext, "f") {
        true
    } else if crate::style::chars_is(&ext, "f03") {
        true
    } else if crate::style::chars_is(&ext, "f77") {
        true
    } else if crate::style::chars_is(&ext, "f90") {
        true
    } else if crate::style::chars_is(&ext, "f95") {
        true
    } else if crate::style::chars_is(&ext, "fish") {
        true
    } else if crate::style::chars_is(&ext, "for") {
        true
    } else if crate::style::chars_is(&ext, "fpp") {
        true
    } else if crate::style::chars_is(&ext, "frm") {
        true
    } else if crate::style::chars_is(&ext, "fs") {
        true
    } else if crate::style::chars_is(&ext, "fsproj") {
        true
    } else if crate::style::chars_is(&ext, "fsx") {
        true
    } else if crate::style::chars_is(&ext, "ftn") {
        true
    } else if crate::style::chars_is(&ext, "gemrc") {
        true
    } else if crate::style::chars_is(&ext, "gemspec") {
        true
    } else if crate::style::chars_is(&ext, "gitattributes") {
        true
    } else if crate::style::chars_is(&ext, "gitconfig") {
        true
    } else if crate::style::chars_is(&ext, "gitignore") {
        true
    } else if crate::style::chars_is(&ext, "gitkeep") {
        true
    } else if crate::style::chars_is(&ext, "gitmodules") {
        true
    } else if crate::style::chars_is(&ext, "go") {
        true
    } else if crate::style::chars_is(&ext, "gpp") {
        true
    } else if crate::style::chars_is(&ext, "gradle") {
        true
    } else if crate::style::chars_is(&ext, "graphql") {
        true
    } else if crate::style::chars_is(&ext, "groovy") {
        true
    } else if crate::style::chars_is(&ext, "groupproj") {
        true
    } else if crate::style::chars_is(&ext, "grunit") {
        true
    } else if crate::style::chars_is(&ext, "gtmpl") {
        true
    } else if crate::style::chars_is(&ext, "gvimrc") {
        true
    } else if crate::style::chars_is(&ext, "h") {
        true
    } else if crate::style::chars_is(&ext, "haml") {
        true
    } else if crate::style::chars_is(&ext, "hbs") {
        true
    } else if crate::style::chars_is(&ext, "hgignore") {
        true
    } else if crate::style::chars_is(&ext, "hh") {
        true
    } else if crate::style::chars_is(&ext, "hpp") {
        true
    } else if crate::style::chars_is(&ext, "hrl") {
        true
    } else if crate::style::chars_is(&ext, "hs") {
        true
    } else if crate::style::chars_is(&ext, "hta") {
        true
    } else if crate::style::chars_is(&ext, "htaccess") {
        true
    } else if crate::style::chars_is(&ext, "htc") {
        true
    } else if crate::style::chars_is(&ext, "htm") {
        true
    } else if crate::style::chars_is(&ext, "html") {
        true
    } else if crate::style::chars_is(&ext, "htpasswd") {
        true
    } else if crate::style::chars_is(&ext, "hxx") {
        true
    } else if crate::style::chars_is(&ext, "iced") {
        true
    } else if crate::style::chars_is(&ext, "iml") {
        true
    } else if crate::style::chars_is(&ext, "inc") {
        true
    } else if crate::style::chars_is(&ext, "inf") {
        true
    } else if crate::style::chars_is(&ext, "info") {
        true
    } else if crate::style::chars_is(&ext, "ini") {
        true
    } else if crate::style::chars_is(&ext, "ino") {
        true
    } else if crate::style::chars_is(&ext, "int") {
        true
    } else if crate::style::chars_is(&ext, "irbrc") {
        true
    } else if crate::style::chars_is(&ext, "itcl") {
        true
    } else if crate::style::chars_is(&ext, "itermcolors") {
        true
    } else if crate::style::chars_is(&ext, "itk") {
        true
    } else if crate::style::chars_is(&ext, "jade") {
        true
    } else if crate::style::chars_is(&ext, "java") {
        true
    } else if crate::style::chars_is(&ext, "jhtm") {
        true
    } else if crate::style::chars_is(&ext, "jhtml") {
        true
    } else if crate::style::chars_is(&ext, "js") {
        true
    } else if crate::style::chars_is(&ext, "jscsrc") {
        true
    } else if crate::style::chars_is(&ext, "jshintignore") {
        true
    } else if crate::style::chars_is(&ext, "jshintrc") {
        true
    } else if crate::style::chars_is(&ext, "json") {
        true
    } else if crate::style::chars_is(&ext, "json5") {
        true
    } else if crate::style::chars_is(&ext, "jsonld") {
        true
    } else if crate::style::chars_is(&ext, "jsp") {
        true
    } else if crate::style::chars_is(&ext, "jspx") {
        true
    } else if crate::style::chars_is(&ext, "jsx") {
        true
    } else if crate::style::chars_is(&ext, "ksh") {
        true
    } else if crate::style::chars_is(&ext, "less") {
        true
    } else if crate::style::chars_is(&ext, "lhs") {
        true
    } else if crate::style::chars_is(&ext, "lisp") {
        true
    } else if crate::style::chars_is(&ext, "log") {
        true
    } else if crate::style::chars_is(&ext, "ls") {
        true
    } else if crate::style::chars_is(&ext, "lsp") {
        true
    } else if crate::style::chars_is(&ext, "lua") {
        true
    } else if crate::style::chars_is(&ext, "m") {
        true
    } else if crate::style::chars_is(&ext, "m4") {
        true
    } else if crate::style::chars_is(&ext, "mak") {
        true
    } else if crate::style::chars_is(&ext, "map") {
        true
    } else if crate::style::chars_is(&ext, "markdown") {
        true
    } else if crate::style::chars_is(&ext, "master") {
        true
    } else if crate::style::chars_is(&ext, "md") {
        true
    } else if crate::style::chars_is(&ext, "mdown") {
        true
    } else if crate::style::chars_is(&ext, "mdwn") {
        true
    } else if crate::style::chars_is(&ext, "mdx") {
        true
    } else if crate::style::chars_is(&ext, "metadata") {
        true
    } else if crate::style::chars_is(&ext, "mht") {
        true
    } else if crate::style::chars_is(&ext, "mhtml") {
        true
    } else if crate::style::chars_is(&ext, "mjs") {
        true
    } else if crate::style::chars_is(&ext, "mk") {
        true
    } else if crate::style::chars_is(&ext, "mkd") {
        true
    } else if crate::style::chars_is(&ext, "mkdn") {
        true
    } else if crate::style::chars_is(&ext, "mkdown") {
        true
    } else if crate::style::chars_is(&ext, "ml") {
        true
    } else if crate::style::chars_is(&ext, "mli") {
        true
    } else if crate::style::chars_is(&ext, "mm") {
        true
    } else if crate::style::chars_is(&ext, "mxml") {
        true
    } else if crate::style::chars_is(&ext, "nfm") {
        true
    } else if crate::style::chars_is(&ext, "nfo") {
        true
    } else if crate::style::chars_is(&ext, "noon") {
        true
    } else if crate::style::chars_is(&ext, "npmignore") {
        true
    } else if crate::style::chars_is(&ext, "npmrc") {
        true
    } else if crate::style::chars_is(&ext, "nuspec") {
        true
    } else if crate::style::chars_is(&ext, "nvmrc") {
        true
    } else if crate::style::chars_is(&ext, "ops") {
        true
    } else if crate::style::chars_is(&ext, "pas") {
        true
    } else if crate::style::chars_is(&ext, "pasm") {
        true
    } else if crate::style::chars_is(&ext, "patch") {
        true
    } else if crate::style::chars_is(&ext, "pbxproj") {
        true
    } else if crate::style::chars_is(&ext, "pch") {
        true
    } else if crate::style::chars_is(&ext, "pem") {
        true
    } else if crate::style::chars_is(&ext, "pg") {
        true
    } else if crate::style::chars_is(&ext, "php") {
        true
    } else if crate::style::chars_is(&ext, "php3") {
        true
    } else if crate::style::chars_is(&ext, "php4") {
        true
    } else if crate::style::chars_is(&ext, "php5") {
        true
    } else if crate::style::chars_is(&ext, "phpt") {
        true
    } else if crate::style::chars_is(&ext, "phtml") {
        true
    } else if crate::style::chars_is(&ext, "pir") {
        true
    } else if crate::style::chars_is(&ext, "pl") {
        true
    } else if crate::style::chars_is(&ext, "pm") {
        true
    } else if crate::style::chars_is(&ext, "pmc") {
        true
    } else if crate::style::chars_is(&ext, "pod") {
        true
    } else if crate::style::chars_is(&ext, "pot") {
        true
    } else if crate::style::chars_is(&ext, "prettierrc") {
        true
    } else if crate::style::chars_is(&ext, "properties") {
        true
    } else if crate::style::chars_is(&ext, "props") {
        true
    } else if crate::style::chars_is(&ext, "pt") {
        true
    } else if crate::style::chars_is(&ext, "pug") {
        true
    } else if crate::style::chars_is(&ext, "purs") {
        true
    } else if crate::style::chars_is(&ext, "py") {
        true
    } else if crate::style::chars_is(&ext, "pyx") {
        true
    } else if crate::style::chars_is(&ext, "r") {
        true
    } else if crate::style::chars_is(&ext, "rake") {
        true
    } else if crate::style::chars_is(&ext, "rb") {
        true
    } else if crate::style::chars_is(&ext, "rbw") {
        true
    } else if crate::style::chars_is(&ext, "rc") {
        true
    } else if crate::style::chars_is(&ext, "rdoc") {
        true
    } else if crate::style::chars_is(&ext, "rdoc_options") {
        true
    } else if crate::style::chars_is(&ext, "resx") {
        true
    } else if crate::style::chars_is(&ext, "rexx") {
        true
    } else if crate::style::chars_is(&ext, "rhtml") {
        true
    } else if crate::style::chars_is(&ext, "rjs") {
        true
    } else if crate::style::chars_is(&ext, "rlib") {
        true
    } else if crate::style::chars_is(&ext, "ron") {
        true
    } else if crate::style::chars_is(&ext, "rs") {
        true
    } else if crate::style::chars_is(&ext, "rss") {
        true
    } else if crate::style::chars_is(&ext, "rst") {
        true
    } else if crate::style::chars_is(&ext, "rtf") {
        true
    } else if crate::style::chars_is(&ext, "rvmrc") {
        true
    } else if crate::style::chars_is(&ext, "rxml") {
        true
    } else if crate::style::chars_is(&ext, "s") {
        true
    } else if crate::style::chars_is(&ext, "sass") {
        true
    } else if crate::style::chars_is(&ext, "scala") {
        true
    } else if crate::style::chars_is(&ext, "scm") {
        true
    } else if crate::style::chars_is(&ext, "scss") {
        true
    } else if crate::style::chars_is(&ext, "seestyle") {
        true
    } else if crate::style::chars_is(&ext, "sh") {
        true
    } else if crate::style::chars_is(&ext, "shtml") {
        true
    } else if crate::style::chars_is(&ext, "sln") {
        true
    } else if crate::style::chars_is(&ext, "sls") {
        true
    } else if crate::style::chars_is(&ext, "spec") {
        true
    } else if crate::style::chars_is(&ext, "sql") {
        true
    } else if crate::style::chars_is(&ext, "sqlite") {
        true
    } else if crate::style::chars_is(&ext, "sqlproj") {
        true
    } else if crate::style::chars_is(&ext, "srt") {
        true
    } else if crate::style::chars_is(&ext, "ss") {
        true
    } else if crate::style::chars_is(&ext, "sss") {
        true
    } else if crate::style::chars_is(&ext, "st") {
        true
    } else if crate::style::chars_is(&ext, "strings") {
        true
    } else if crate::style::chars_is(&ext, "sty") {
        true
    } else if crate::style::chars_is(&ext, "styl") {
        true
    } else if crate::style::chars_is(&ext, "stylus") {
        true
    } else if crate::style::chars_is(&ext, "sub") {
        true
    } else if crate::style::chars_is(&ext, "sublime-build") {
        true
    } else if crate::style::chars_is(&ext, "sublime-commands") {
        true
    } else if crate::style::chars_is(&ext, "sublime-completions") {
        true
    } else if crate::style::chars_is(&ext, "sublime-keymap") {
        true
    } else if crate::style::chars_is(&ext, "sublime-macro") {
        true
    } else if crate::style::chars_is(&ext, "sublime-menu") {
        true
    } else if crate::style::chars_is(&ext, "sublime-project") {
        true
    } else if crate::style::chars_is(&ext, "sublime-settings") {
        true
    } else if crate::style::chars_is(&ext, "sublime-workspace") {
        true
    } else if crate::style::chars_is(&ext, "sv") {
        true
    } else if crate::style::chars_is(&ext, "svc") {
        true
    } else if crate::style::chars_is(&ext, "svg") {
        true
    } else if crate::style::chars_is(&ext, "swift") {
        true
    } else if crate::style::chars_is(&ext, "t") {
        true
    } else if crate::style::chars_is(&ext, "tcl") {
        true
    } else if crate::style::chars_is(&ext, "tcsh") {
        true
    } else if crate::style::chars_is(&ext, "terminal") {
        true
    } else if crate::style::chars_is(&ext, "tex") {
        true
    } else if crate::style::chars_is(&ext, "text") {
        true
    } else if crate::style::chars_is(&ext, "textile") {
        true
    } else if crate::style::chars_is(&ext, "tg") {
        true
    } else if crate::style::chars_is(&ext, "tk") {
        true
    } else if crate::style::chars_is(&ext, "tmLanguage") {
        true
    } else if crate::style::chars_is(&ext, "tmpl") {
        true
    } else if crate::style::chars_is(&ext, "tmTheme") {
        true
    } else if crate::style::chars_is(&ext, "toml") {
        true
    } else if crate::style::chars_is(&ext, "tpl") {
        true
    } else if crate::style::chars_is(&ext, "ts") {
        true
    } else if crate::style::chars_is(&ext, "tsv") {
        true
    } else if crate::style::chars_is(&ext, "tsx") {
        true
    } else if crate::style::chars_is(&ext, "tt") {
        true
    } else if crate::style::chars_is(&ext, "tt2") {
        true
    } else if crate::style::chars_is(&ext, "ttml") {
        true
    } else if crate::style::chars_is(&ext, "twig") {
        true
    } else if crate::style::chars_is(&ext, "txt") {
        true
    } else if crate::style::chars_is(&ext, "v") {
        true
    } else if crate::style::chars_is(&ext, "vb") {
        true
    } else if crate::style::chars_is(&ext, "vbproj") {
        true
    } else if crate::style::chars_is(&ext, "vbs") {
        true
    } else if crate::style::chars_is(&ext, "vcproj") {
        true
    } else if crate::style::chars_is(&ext, "vcxproj") {
        true
    } else if crate::style::chars_is(&ext, "vh") {
        true
    } else if crate::style::chars_is(&ext, "vhd") {
        true
    } else if crate::style::chars_is(&ext, "vhdl") {
        true
    } else if crate::style::chars_is(&ext, "vim") {
        true
    } else if crate::style::chars_is(&ext, "viminfo") {
        true
    } else if crate::style::chars_is(&ext, "vimrc") {
        true
    } else if crate::style::chars_is(&ext, "vm") {
        true
    } else if crate::style::chars_is(&ext, "vue") {
        true
    } else if crate::style::chars_is(&ext, "webapp") {
        true
    } else if crate::style::chars_is(&ext, "webmanifest") {
        true
    } else if crate::style::chars_is(&ext, "wsc") {
        true
    } else if crate::style::chars_is(&ext, "x-php") {
        true
    } else if crate::style::chars_is(&ext, "xaml") {
        true
    } else if crate::style::chars_is(&ext, "xht") {
        true
    } else if crate::style::chars_is(&ext, "xhtml") {
        true
    } else if crate::style::chars_is(&ext, "xml") {
        true
    } else if crate::style::chars_is(&ext, "xs") {
        true
    } else if crate::style::chars_is(&ext, "xsd") {
        true
    } else if crate::style::chars_is(&ext, "xsl") {
        true
    } else if crate::style::chars_is(&ext, "xslt") {
        true
    } else if crate::style::chars_is(&ext, "y") {
        true
    } else if crate::style::chars_is(&ext, "yaml") {
        true
    } else if crate::style::chars_is(&ext, "yml") {
        true
    } else if crate::style::chars_is(&ext, "zsh") {
        true
    } else if crate::style::chars_is(&ext, "zshrc") {
        true
    } else {
        false
    }
}

} // verus!
