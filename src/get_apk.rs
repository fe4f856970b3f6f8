//! Where the application package to patch comes from.
use vstd::prelude::*;

verus! {

/// The key of the AndroZoo download service: read from a file, or given directly.
#[derive(Debug)]
pub struct AndrozooKey {
    pub api_key_path: Option<String>,
    pub api_key: Option<String>,
}

/// The package: a local file, or the SHA-256 of a package to download with an AndroZoo key.
#[derive(Debug)]
pub struct ApkLocation {
    pub path: Option<String>,
    pub sha256: Option<String>,
    pub androzoo_key: Option<AndrozooKey>,
}

/// A path without its trailing `/` characters and trailing `/.` components, which name the
/// same file.
pub open spec fn trim_slashes(p: Seq<char>) -> Seq<char>
    decreases p.len(),
{
    if p.len() > 0 && p.last() == '/' {
        trim_slashes(p.drop_last())
    } else if p.len() >= 2 && p.last() == '.' && p[p.len() - 2] == '/' {
        trim_slashes(p.take(p.len() - 2))
    } else {
        p
    }
}

/// The text after the last `/` of a path.
pub open spec fn last_component(p: Seq<char>) -> Seq<char>
    decreases p.len(),
{
    if p.len() == 0 {
        p
    } else if p.last() == '/' {
        seq![]
    } else {
        last_component(p.drop_last()).push(p.last())
    }
}

/// The file name of a path: its last component, trailing `/` and `/.` ignored.
pub open spec fn file_name(p: Seq<char>) -> Seq<char> {
    last_component(trim_slashes(p))
}

/// Whether the last component of a path names a file: neither empty, `.` nor `..`.
pub open spec fn names_file(p: Seq<char>) -> bool {
    let f = file_name(p);
    f.len() > 0 && f != seq!['.'] && f != seq!['.', '.']
}

impl ApkLocation {
    /// Whether the location names a package: a path whose last component names a file, or a
    /// SHA-256.
    pub open spec fn valid(&self) -> bool {
        match self.path {
            Some(p) => names_file(p@),
            None => self.sha256 is Some,
        }
    }

    /// An identifier of the package: the file name of its path, or its SHA-256.
    pub fn get_id(&self) -> (r: String)
        requires
            self.valid(),
        ensures
            self.path matches Some(p) ==> r@ == file_name(p@),
            self.path is None ==> r@ == self.sha256->0@,
    {
        match &self.path {
            Some(p) => {
                let s = p.as_str();
                let mut n = s.unicode_len();
                assert(p@.take(n as int) =~= p@);
                while n > 0 && (s.get_char(n - 1) == '/' || (n >= 2 && s.get_char(n - 1) == '.'
                    && s.get_char(n - 2) == '/'))
                    invariant
                        n <= p@.len(),
                        s@ == p@,
                        trim_slashes(p@) == trim_slashes(p@.take(n as int)),
                    decreases n,
                {
                    if s.get_char(n - 1) == '/' {
                        assert(p@.take(n as int).drop_last() =~= p@.take(n as int - 1));
                        n -= 1;
                    } else {
                        assert(p@.take(n as int).take(n - 2) =~= p@.take(n as int - 2));
                        n -= 2;
                    }
                }
                assert(trim_slashes(p@.take(n as int)) == p@.take(n as int));
                let ghost q = p@.take(n as int);
                let mut start: usize = n;
                assert(q.take(n as int) =~= q);
                assert(q.skip(n as int) =~= Seq::<char>::empty());
                while start > 0 && s.get_char(start - 1) != '/'
                    invariant
                        start <= n,
                        n <= p@.len(),
                        s@ == p@,
                        q == p@.take(n as int),
                        last_component(q) == last_component(q.take(start as int)) + q.skip(start as int),
                    decreases start,
                {
                    proof {
                        let r = q.take(start as int);
                        assert(r.drop_last() =~= q.take(start as int - 1));
                        assert(q.skip(start as int - 1) =~= seq![r.last()] + q.skip(start as int));
                    }
                    start -= 1;
                }
                proof {
                    if start == 0 {
                        assert(q.take(0) =~= Seq::<char>::empty());
                    } else {
                        assert(q.take(start as int).last() == '/');
                    }
                    assert(last_component(q.take(start as int)) =~= Seq::<char>::empty());
                }
                let name = s.substring_char(start, n);
                proof {
                    assert(name@ =~= q.skip(start as int));
                }
                String::from_str(name)
            },
            None => match &self.sha256 {
                Some(h) => h.clone(),
                None => String::new(),
            },
        }
    }
}

} // verus!
