//! Cache directory layout shared by both installers.

use vstd::prelude::*;

verus! {

/// A filesystem location: `root` with `parts` joined onto it one after the
/// other (as `Path::join` does, so an absolute part replaces what came
/// before it).
#[derive(Debug)]
pub struct CachePath {
    pub root: String,
    pub parts: Vec<String>,
}

impl View for CachePath {
    type V = (Seq<char>, Seq<Seq<char>>);

    open spec fn view(&self) -> (Seq<char>, Seq<Seq<char>>) {
        (self.root@, self.parts@.map_values(|p: String| p@))
    }
}

impl CachePath {
    /// The same location with one more component joined on.
    pub fn join(self, part: &str) -> (p: CachePath)
        ensures
            p@ == (self@.0, self@.1.push(part@)),
    {
        let CachePath { root, mut parts } = self;
        let ghost before = parts@;
        parts.push(part.to_owned());
        proof {
            assert(parts@.map_values(|p: String| p@) =~= before.map_values(|p: String| p@).push(
                part@,
            ));
        }
        CachePath { root, parts }
    }

    /// `root` with nothing joined on.
    pub fn new(root: &str) -> (p: CachePath)
        ensures
            p@ == (root@, Seq::<Seq<char>>::empty()),
    {
        let p = CachePath { root: root.to_owned(), parts: Vec::new() };
        assert(p@.1 =~= Seq::<Seq<char>>::empty());
        p
    }
}

/// The base of the data directory: `$XDG_DATA_HOME`, else
/// `$HOME/.local/share`, else the current directory.
pub open spec fn spec_data_base(xdg_data_home: Option<Seq<char>>, home: Option<Seq<char>>) -> (
    Seq<char>,
    Seq<Seq<char>>,
) {
    match xdg_data_home {
        Some(x) => (x, Seq::<Seq<char>>::empty()),
        None => match home {
            Some(h) => (h, seq![".local/share"@]),
            None => ("."@, Seq::<Seq<char>>::empty()),
        },
    }
}

pub open spec fn opt_str_view(o: Option<&str>) -> Option<Seq<char>> {
    match o {
        Some(s) => Some(s@),
        None => None,
    }
}

/// Root cache directory for a given backend kind:
/// `$XDG_DATA_HOME/rizz/<kind>` (or `~/.local/share/rizz/<kind>`), given
/// the values of `XDG_DATA_HOME` and `HOME`.
pub fn cache_root_for(xdg_data_home: Option<&str>, home: Option<&str>, kind: &str) -> (p: CachePath)
    ensures
        p@ == ({
            let b = spec_data_base(opt_str_view(xdg_data_home), opt_str_view(home));
            (b.0, b.1.push("rizz"@).push(kind@))
        }),
{
    let base = match xdg_data_home {
        Some(x) => CachePath::new(x),
        None => match home {
            Some(h) => CachePath::new(h).join(".local/share"),
            None => CachePath::new("."),
        },
    };
    proof {
        assert(Seq::<Seq<char>>::empty().push(".local/share"@) =~= seq![".local/share"@]);
    }
    base.join("rizz").join(kind)
}

/// Per-entry directory: `<root>/<name>`.
pub fn entry_dir(root: &str, name: &str) -> (p: CachePath)
    ensures
        p@ == (root@, seq![name@]),
{
    let p = CachePath::new(root).join(name);
    assert(p@.1 =~= seq![name@]);
    p
}

/// Stamp file used to skip rebuilds when the install inputs haven't
/// changed: `<root>/<name>/.stamp`.
pub fn stamp_path(root: &str, name: &str) -> (p: CachePath)
    ensures
        p@ == (root@, seq![name@, ".stamp"@]),
{
    let p = entry_dir(root, name).join(".stamp");
    assert(p@.1 =~= seq![name@, ".stamp"@]);
    p
}

} // verus!
