use vstd::prelude::*;
use vstd::string::{StrSliceExecFns, StringExecFns};

verus! {

/// Index of the last `c` in `s`, or -1 where `s` holds none.
pub open spec fn last_index_of(s: Seq<char>, c: char) -> int
    decreases s.len(),
{
    if s.len() == 0 {
        -1
    } else if s.last() == c {
        s.len() - 1
    } else {
        last_index_of(s.drop_last(), c)
    }
}

/// Index of the dot that starts a path's extension, or -1 where it has none.
/// The file name is what follows the last `/`; its extension is what follows
/// its last `.`, unless that dot begins the name (as in `.profile`).
pub open spec fn extension_dot(path: Seq<char>) -> int {
    let dot = last_index_of(path, '.');
    if dot > last_index_of(path, '/') + 1 {
        dot
    } else {
        -1
    }
}

/// The extension of a path, without its dot.
pub open spec fn extension_of(path: Seq<char>) -> Option<Seq<char>> {
    let dot = extension_dot(path);
    if dot >= 0 {
        Some(path.subrange(dot + 1, path.len() as int))
    } else {
        None
    }
}

/// The path without its extension and the dot before it.
pub open spec fn stem_of(path: Seq<char>) -> Seq<char> {
    let dot = extension_dot(path);
    if dot >= 0 {
        path.subrange(0, dot)
    } else {
        path
    }
}

/// The path with its extension replaced by `ext`, or removed where `ext` is
/// empty.
pub open spec fn with_extension(path: Seq<char>, ext: Seq<char>) -> Seq<char> {
    if ext.len() == 0 {
        stem_of(path)
    } else {
        stem_of(path) + seq!['.'] + ext
    }
}

/// The path that encrypting `path` writes to: its extension becomes the
/// original extension, or `file` where there is none, followed by `.enc`.
pub open spec fn encrypted_path_of(path: Seq<char>) -> Seq<char> {
    let ext = match extension_of(path) {
        Some(e) => e,
        None => seq!['f', 'i', 'l', 'e'],
    };
    with_extension(path, ext + seq!['.', 'e', 'n', 'c'])
}

/// The path that decrypting `path` writes to: a path whose extension is
/// `enc` loses it; any other path gets the extension `decrypted` in place of
/// its own.
pub open spec fn decrypted_path_of(path: Seq<char>) -> Seq<char> {
    if extension_of(path) == Some(seq!['e', 'n', 'c']) {
        with_extension(path, Seq::empty())
    } else {
        with_extension(path, seq!['d', 'e', 'c', 'r', 'y', 'p', 't', 'e', 'd'])
    }
}

proof fn lemma_last_index_bounds(s: Seq<char>, c: char)
    ensures
        -1 <= last_index_of(s, c) < s.len(),
        last_index_of(s, c) >= 0 ==> s[last_index_of(s, c)] == c,
    decreases s.len(),
{
    if s.len() > 0 && s.last() != c {
        lemma_last_index_bounds(s.drop_last(), c);
    }
}

/// Finds the last `c` in `s`.
fn last_index(s: &str, c: char) -> (r: Option<usize>)
    ensures
        match r {
            Some(i) => i as int == last_index_of(s@, c) && i < s@.len(),
            None => last_index_of(s@, c) == -1,
        },
        s@.len() <= usize::MAX,
{
    let n = s.unicode_len();
    let mut found: Option<usize> = None;
    let mut i: usize = 0;
    while i < n
        invariant
            n == s@.len(),
            i <= n,
            match found {
                Some(f) => f as int == last_index_of(s@.subrange(0, i as int), c) && f < i,
                None => last_index_of(s@.subrange(0, i as int), c) == -1,
            },
        decreases n - i,
    {
        assert(s@.subrange(0, i as int + 1).drop_last() =~= s@.subrange(0, i as int));
        if s.get_char(i) == c {
            found = Some(i);
        }
        i = i + 1;
    }
    assert(s@.subrange(0, n as int) =~= s@);
    found
}

/// Finds the dot that starts the extension of `path`.
fn extension_dot_index(path: &str) -> (r: Option<usize>)
    ensures
        match r {
            Some(d) => d as int == extension_dot(path@) && d < path@.len(),
            None => extension_dot(path@) == -1,
        },
{
    proof {
        lemma_last_index_bounds(path@, '.');
        lemma_last_index_bounds(path@, '/');
    }
    let dot = last_index(path, '.');
    let slash = last_index(path, '/');
    match dot {
        None => None,
        Some(d) => {
            let after_slash: usize = match slash {
                Some(s) => s + 1,
                None => 0,
            };
            if d > after_slash {
                Some(d)
            } else {
                None
            }
        },
    }
}

/// The path that encrypting `path` writes to: `report.pdf` gives
/// `report.pdf.enc`, `README` gives `README.file.enc`.
pub fn encrypted_path(path: &str) -> (r: String)
    ensures
        r@ == encrypted_path_of(path@),
{
    let n = path.unicode_len();
    let dot = extension_dot_index(path);
    let mut r: String;
    match dot {
        Some(d) => {
            r = String::from_str(path.substring_char(0, d));
            r.append(".");
            r.append(path.substring_char(d + 1, n));
        },
        None => {
            r = String::from_str(path);
            r.append(".file");
        },
    }
    r.append(".enc");
    proof {
        reveal_strlit(".");
        reveal_strlit(".file");
        reveal_strlit(".enc");
    }
    assert(r@ =~= encrypted_path_of(path@));
    r
}

/// The path that decrypting `path` writes to: `report.pdf.enc` gives
/// `report.pdf`, `data.bin` gives `data.decrypted`.
pub fn decrypted_path(path: &str) -> (r: String)
    ensures
        r@ == decrypted_path_of(path@),
{
    let n = path.unicode_len();
    let dot = extension_dot_index(path);
    proof {
        reveal_strlit("enc");
        reveal_strlit(".decrypted");
    }
    match dot {
        Some(d) => {
            let ext = String::from_str(path.substring_char(d + 1, n));
            let enc = String::from_str("enc");
            let mut r = String::from_str(path.substring_char(0, d));
            assert(enc@ =~= seq!['e', 'n', 'c']);
            assert(extension_of(path@) == Some(ext@));
            if ext.eq(&enc) {
                assert(r@ =~= decrypted_path_of(path@));
            } else {
                assert(ext@ != seq!['e', 'n', 'c']);
                r.append(".decrypted");
                assert(r@ =~= decrypted_path_of(path@));
            }
            r
        },
        None => {
            let mut r = String::from_str(path);
            r.append(".decrypted");
            assert(r@ =~= decrypted_path_of(path@));
            r
        },
    }
}

proof fn lemma_last_index_concat(s: Seq<char>, t: Seq<char>, c: char)
    ensures
        last_index_of(s + t, c) == if last_index_of(t, c) >= 0 {
            s.len() + last_index_of(t, c)
        } else {
            last_index_of(s, c)
        },
    decreases t.len(),
{
    if t.len() == 0 {
        assert(s + t =~= s);
    } else {
        assert((s + t).drop_last() =~= s + t.drop_last());
        lemma_last_index_concat(s, t.drop_last(), c);
    }
}

proof fn lemma_enc_suffix_indices()
    ensures
        last_index_of(seq!['.', 'e', 'n', 'c'], '.') == 0,
        last_index_of(seq!['.', 'e', 'n', 'c'], '/') == -1,
        last_index_of(seq!['.', 'f', 'i', 'l', 'e'], '/') == -1,
{
    reveal_with_fuel(last_index_of, 6);
    assert(seq!['.', 'e', 'n', 'c'].drop_last() =~= seq!['.', 'e', 'n']);
    assert(seq!['.', 'e', 'n'].drop_last() =~= seq!['.', 'e']);
    assert(seq!['.', 'e'].drop_last() =~= seq!['.']);
    assert(seq!['.'].drop_last() =~= Seq::<char>::empty());
    assert(seq!['.', 'f', 'i', 'l', 'e'].drop_last() =~= seq!['.', 'f', 'i', 'l']);
    assert(seq!['.', 'f', 'i', 'l'].drop_last() =~= seq!['.', 'f', 'i']);
    assert(seq!['.', 'f', 'i'].drop_last() =~= seq!['.', 'f']);
    assert(seq!['.', 'f'].drop_last() =~= seq!['.']);
}

/// A name whose file name is not empty gets back from `x.enc` to `x`.
proof fn lemma_strip_enc(x: Seq<char>)
    requires
        x.len() > last_index_of(x, '/') + 1,
    ensures
        decrypted_path_of(x + seq!['.', 'e', 'n', 'c']) == x,
{
    let t = seq!['.', 'e', 'n', 'c'];
    let q = x + t;
    lemma_enc_suffix_indices();
    lemma_last_index_concat(x, t, '.');
    lemma_last_index_concat(x, t, '/');
    assert(extension_dot(q) == x.len());
    assert(q.subrange(x.len() as int + 1, q.len() as int) =~= seq!['e', 'n', 'c']);
    assert(q.subrange(0, x.len() as int) =~= x);
}

/// Decrypting the name that encrypting gives returns the original name where
/// it has an extension; a name without one comes back with the extension
/// `file`.
pub proof fn lemma_naming_round_trip(path: Seq<char>)
    ensures
        decrypted_path_of(encrypted_path_of(path)) == if extension_of(path) is Some {
            path
        } else {
            path + seq!['.', 'f', 'i', 'l', 'e']
        },
{
    let enc = seq!['.', 'e', 'n', 'c'];
    lemma_last_index_bounds(path, '.');
    lemma_last_index_bounds(path, '/');
    let dot = extension_dot(path);
    if dot >= 0 {
        let e = path.subrange(dot + 1, path.len() as int);
        assert(path.subrange(0, dot) + seq!['.'] + (e + enc) =~= path + enc);
        lemma_strip_enc(path);
    } else {
        let file = seq!['.', 'f', 'i', 'l', 'e'];
        assert(path + seq!['.'] + (seq!['f', 'i', 'l', 'e'] + enc) =~= (path + file) + enc);
        lemma_enc_suffix_indices();
        lemma_last_index_concat(path, file, '/');
        lemma_strip_enc(path + file);
    }
}

} // verus!
