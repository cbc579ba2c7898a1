use vstd::prelude::*;

verus! {

/// Which highlight categories are active for a language profile, and its
/// keyword lists.
pub struct HighlightingOptions {
    pub numbers: bool,
    pub strings: bool,
    pub characters: bool,
    pub comments: bool,
    pub primary_keywords: Vec<String>,
    pub secondary_keywords: Vec<String>,
}

impl HighlightingOptions {
    pub fn numbers(&self) -> (r: bool)
        ensures
            r == self.numbers,
    {
        self.numbers
    }

    pub fn strings(&self) -> (r: bool)
        ensures
            r == self.strings,
    {
        self.strings
    }

    pub fn characters(&self) -> (r: bool)
        ensures
            r == self.characters,
    {
        self.characters
    }

    pub fn comments(&self) -> (r: bool)
        ensures
            r == self.comments,
    {
        self.comments
    }

    pub fn primary_keywords(&self) -> (r: &Vec<String>)
        ensures
            r == &self.primary_keywords,
    {
        &self.primary_keywords
    }

    pub fn secondary_keywords(&self) -> (r: &Vec<String>)
        ensures
            r == &self.secondary_keywords,
    {
        &self.secondary_keywords
    }
}

impl Default for HighlightingOptions {
    /// The profile with every category off and no keywords.
    fn default() -> (r: Self)
        ensures
            !r.numbers,
            !r.strings,
            !r.characters,
            !r.comments,
            r.primary_keywords.deep_view() == Seq::<Seq<char>>::empty(),
            r.secondary_keywords.deep_view() == Seq::<Seq<char>>::empty(),
    {
        let r = HighlightingOptions {
            numbers: false,
            strings: false,
            characters: false,
            comments: false,
            primary_keywords: Vec::new(),
            secondary_keywords: Vec::new(),
        };
        proof {
            assert(r.primary_keywords.deep_view() =~= Seq::<Seq<char>>::empty());
            assert(r.secondary_keywords.deep_view() =~= Seq::<Seq<char>>::empty());
        }
        r
    }
}

/// An immutable language profile: a label and the highlighting configuration,
/// chosen from a file name's extension.
pub struct FileType {
    pub name: String,
    pub hl_opts: HighlightingOptions,
}

/// The keyword list highlighted as primary in the built-in Rust profile.
pub open spec fn rust_primary_keywords() -> Seq<Seq<char>> {
    seq![
        "as"@,
        "break"@,
        "const"@,
        "continue"@,
        "crate"@,
        "dyn"@,
        "else"@,
        "enum"@,
        "false"@,
        "fn"@,
        "for"@,
        "if"@,
        "impl"@,
        "in"@,
        "let"@,
        "loop"@,
        "match"@,
        "mod"@,
        "move"@,
        "mut"@,
        "pub"@,
        "ref"@,
        "return"@,
        "self"@,
        "Self"@,
        "static"@,
        "struct"@,
        "super"@,
        "trait"@,
        "true"@,
        "type"@,
        "use"@,
        "where"@,
        "while"@,
    ]
}

/// The keyword list highlighted as secondary in the built-in Rust profile:
/// the primitive integer, boolean and character type names.
pub open spec fn rust_secondary_keywords() -> Seq<Seq<char>> {
    seq![
        "bool"@,
        "char"@,
        "i8"@,
        "i16"@,
        "i32"@,
        "i64"@,
        "isize"@,
        "u8"@,
        "u16"@,
        "u32"@,
        "u64"@,
        "usize"@,
    ]
}

/// The built-in Rust profile: every category on, the Rust keyword lists.
pub open spec fn is_rust_profile(ft: FileType) -> bool {
    &&& ft.name@ == "Rust"@
    &&& ft.hl_opts.numbers
    &&& ft.hl_opts.strings
    &&& ft.hl_opts.characters
    &&& ft.hl_opts.comments
    &&& ft.hl_opts.primary_keywords.deep_view() == rust_primary_keywords()
    &&& ft.hl_opts.secondary_keywords.deep_view() == rust_secondary_keywords()
}

/// The fallback profile: no highlighting at all.
pub open spec fn is_noop_profile(ft: FileType) -> bool {
    &&& ft.name@ == "No file type"@
    &&& !ft.hl_opts.numbers
    &&& !ft.hl_opts.strings
    &&& !ft.hl_opts.characters
    &&& !ft.hl_opts.comments
    &&& ft.hl_opts.primary_keywords.deep_view() == Seq::<Seq<char>>::empty()
    &&& ft.hl_opts.secondary_keywords.deep_view() == Seq::<Seq<char>>::empty()
}

/// The profile that belongs to a file name: the Rust profile for a `.rs`
/// name, the no-op profile for any other.
pub open spec fn profile_for_name(name: Seq<char>, ft: FileType) -> bool {
    if has_rust_extension(name) {
        is_rust_profile(ft)
    } else {
        is_noop_profile(ft)
    }
}

/// A file name that selects the built-in Rust profile: it ends in `.rs`.
pub open spec fn has_rust_extension(name: Seq<char>) -> bool {
    name.len() >= 3 && name[name.len() - 3] == '.' && name[name.len() - 2] == 'r' && name[name.len()
        - 1] == 's'
}

fn push_keyword(list: &mut Vec<String>, word: &str)
    ensures
        final(list).deep_view() == old(list).deep_view().push(word@),
{
    list.push(String::from_str(word));
    proof {
        assert(list.deep_view() =~= old(list).deep_view().push(word@));
    }
}

fn rust_primary_keyword_list() -> (r: Vec<String>)
    ensures
        r.deep_view() == rust_primary_keywords(),
{
    let mut list: Vec<String> = Vec::new();
    push_keyword(&mut list, "as");
    push_keyword(&mut list, "break");
    push_keyword(&mut list, "const");
    push_keyword(&mut list, "continue");
    push_keyword(&mut list, "crate");
    push_keyword(&mut list, "dyn");
    push_keyword(&mut list, "else");
    push_keyword(&mut list, "enum");
    push_keyword(&mut list, "false");
    push_keyword(&mut list, "fn");
    push_keyword(&mut list, "for");
    push_keyword(&mut list, "if");
    push_keyword(&mut list, "impl");
    push_keyword(&mut list, "in");
    push_keyword(&mut list, "let");
    push_keyword(&mut list, "loop");
    push_keyword(&mut list, "match");
    push_keyword(&mut list, "mod");
    push_keyword(&mut list, "move");
    push_keyword(&mut list, "mut");
    push_keyword(&mut list, "pub");
    push_keyword(&mut list, "ref");
    push_keyword(&mut list, "return");
    push_keyword(&mut list, "self");
    push_keyword(&mut list, "Self");
    push_keyword(&mut list, "static");
    push_keyword(&mut list, "struct");
    push_keyword(&mut list, "super");
    push_keyword(&mut list, "trait");
    push_keyword(&mut list, "true");
    push_keyword(&mut list, "type");
    push_keyword(&mut list, "use");
    push_keyword(&mut list, "where");
    push_keyword(&mut list, "while");
    proof {
        assert(list.deep_view() =~= rust_primary_keywords());
    }
    list
}

fn rust_secondary_keyword_list() -> (r: Vec<String>)
    ensures
        r.deep_view() == rust_secondary_keywords(),
{
    let mut list: Vec<String> = Vec::new();
    push_keyword(&mut list, "bool");
    push_keyword(&mut list, "char");
    push_keyword(&mut list, "i8");
    push_keyword(&mut list, "i16");
    push_keyword(&mut list, "i32");
    push_keyword(&mut list, "i64");
    push_keyword(&mut list, "isize");
    push_keyword(&mut list, "u8");
    push_keyword(&mut list, "u16");
    push_keyword(&mut list, "u32");
    push_keyword(&mut list, "u64");
    push_keyword(&mut list, "usize");
    proof {
        assert(list.deep_view() =~= rust_secondary_keywords());
    }
    list
}

impl FileType {
    pub fn name(&self) -> (r: String)
        ensures
            r@ == self.name@,
    {
        self.name.clone()
    }

    pub fn highlighting_options(&self) -> (r: &HighlightingOptions)
        ensures
            r == &self.hl_opts,
    {
        &self.hl_opts
    }

    /// The profile for a file of the given name: the built-in Rust profile
    /// for a name ending in `.rs`, and the no-op profile for any other name.
    pub fn from_file_name(file_name: &str) -> (r: Self)
        ensures
            profile_for_name(file_name@, r),
    {
        let n = file_name.unicode_len();
        let is_rust = n >= 3 && file_name.get_char(n - 3) == '.' && file_name.get_char(n - 2) == 'r'
            && file_name.get_char(n - 1) == 's';
        if is_rust {
            FileType {
                name: String::from_str("Rust"),
                hl_opts: HighlightingOptions {
                    numbers: true,
                    strings: true,
                    characters: true,
                    comments: true,
                    primary_keywords: rust_primary_keyword_list(),
                    secondary_keywords: rust_secondary_keyword_list(),
                },
            }
        } else {
            FileType::default()
        }
    }
}

impl Default for FileType {
    /// The profile used when no extension is recognized: no highlighting.
    fn default() -> (r: Self)
        ensures
            is_noop_profile(r),
    {
        FileType { name: String::from_str("No file type"), hl_opts: HighlightingOptions::default() }
    }
}

} // verus!
