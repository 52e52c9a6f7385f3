//! Structural locations of failures.
//!
//! A path is an ordered sequence of segments (field name, list index, map
//! key).  Segments are appended in leaf-to-root order while a failure
//! propagates upward through nesting levels, so the display form reads the
//! sequence in reverse: the segment pushed last is printed first, giving a
//! root-to-leaf rendering such as `.outer.inner[2]["k"]`.

use vstd::prelude::*;
use vstd::string::*;

verus! {

/// One location segment: a named field, a list position, or a map key.
#[derive(Debug)]
pub enum PathPart {
    Field(String),
    Index(usize),
    Key(String),
}

impl PathPart {
    /// A fresh copy of this segment, equal to it in the model.
    pub fn duplicate(&self) -> (r: PathPart)
        ensures
            r@ == self@,
    {
        match self {
            PathPart::Field(name) => PathPart::Field(name.clone()),
            PathPart::Index(i) => PathPart::Index(*i),
            PathPart::Key(k) => PathPart::Key(k.clone()),
        }
    }
}

/// The mathematical form of a [`PathPart`].
pub enum PathPartView {
    Field(Seq<char>),
    Index(int),
    Key(Seq<char>),
}

impl View for PathPart {
    type V = PathPartView;

    open spec fn view(&self) -> PathPartView {
        match self {
            PathPart::Field(name) => PathPartView::Field(name@),
            PathPart::Index(i) => PathPartView::Index(*i as int),
            PathPart::Key(k) => PathPartView::Key(k@),
        }
    }
}

/// The decimal digit character for `d`, which must lie in `0 ..= 9`.
pub open spec fn digit_char(d: int) -> char {
    if d == 0 {
        '0'
    } else if d == 1 {
        '1'
    } else if d == 2 {
        '2'
    } else if d == 3 {
        '3'
    } else if d == 4 {
        '4'
    } else if d == 5 {
        '5'
    } else if d == 6 {
        '6'
    } else if d == 7 {
        '7'
    } else if d == 8 {
        '8'
    } else {
        '9'
    }
}

/// The decimal rendering of `n`, most significant digit first.
pub open spec fn dec_rep(n: nat) -> Seq<char>
    decreases n,
{
    if n < 10 {
        seq![digit_char(n as int)]
    } else {
        dec_rep(n / 10) + seq![digit_char((n % 10) as int)]
    }
}

/// How one segment renders: `.name` for a field, `[n]` for an index,
/// `["k"]` for a key.
pub open spec fn render_part(p: PathPartView) -> Seq<char> {
    match p {
        PathPartView::Field(name) => seq!['.'] + name,
        PathPartView::Index(i) => seq!['['] + dec_rep(i as nat) + seq![']'],
        PathPartView::Key(k) => seq!['[', '"'] + k + seq!['"', ']'],
    }
}

/// The display form of a whole path: segments are printed in reverse
/// insertion order (the segment pushed last comes first), with no separator
/// between them.
pub open spec fn render_path(p: Seq<PathPartView>) -> Seq<char>
    decreases p.len(),
{
    if p.len() == 0 {
        Seq::empty()
    } else {
        render_path(p.drop_first()) + render_part(p.first())
    }
}

/// Pushing one more segment prepends its rendering to the display form:
/// the newest segment is nearest the root.
pub proof fn lemma_render_push(p: Seq<PathPartView>, s: PathPartView)
    ensures
        render_path(p.push(s)) == render_part(s) + render_path(p),
    decreases p.len(),
{
    if p.len() == 0 {
        assert(p.push(s).drop_first() =~= Seq::<PathPartView>::empty());
        assert(p.push(s).first() == s);
        assert(render_path(p.push(s)) == render_path(Seq::<PathPartView>::empty()) + render_part(s));
        assert(Seq::<char>::empty() + render_part(s) =~= render_part(s));
        assert(render_path(p) =~= Seq::<char>::empty());
        assert(render_part(s) + render_path(p) =~= render_part(s));
    } else {
        assert(p.push(s).drop_first() =~= p.drop_first().push(s));
        lemma_render_push(p.drop_first(), s);
        assert((render_part(s) + render_path(p.drop_first())) + render_part(p.first()) =~= render_part(
            s,
        ) + (render_path(p.drop_first()) + render_part(p.first())));
    }
}

/// An ordered, append-only sequence of location segments.
#[derive(Debug)]
pub struct PathTracker {
    pub parts: Vec<PathPart>,
}

impl View for PathTracker {
    type V = Seq<PathPartView>;

    open spec fn view(&self) -> Seq<PathPartView> {
        self.parts@.map_values(|p: PathPart| p@)
    }
}

impl PathTracker {
    /// An empty path, as a freshly created failure carries.
    pub fn new() -> (r: PathTracker)
        ensures
            r@ == Seq::<PathPartView>::empty(),
    {
        let r = PathTracker { parts: Vec::new() };
        proof {
            assert(r@ =~= Seq::<PathPartView>::empty());
        }
        r
    }

    /// Appends one segment; the path keeps every earlier segment.
    pub fn push(&mut self, part: PathPart)
        ensures
            final(self)@ == old(self)@.push(part@),
    {
        let ghost part_view = part@;
        self.parts.push(part);
        proof {
            assert(self@ =~= old(self)@.push(part_view));
        }
    }

    /// The display string of the path, read root-to-leaf.
    pub fn render(&self) -> (s: String)
        ensures
            s@ == render_path(self@),
    {
        let mut s = String::new();
        let mut i: usize = self.parts.len();
        while i > 0
            invariant
                i <= self.parts.len(),
                s@ == render_path(self@.skip(i as int)),
            decreases i,
        {
            i = i - 1;
            proof {
                assert(self@.skip(i as int).first() == self@[i as int]);
                assert(self@.skip(i as int).drop_first() =~= self@.skip(i as int + 1));
            }
            match &self.parts[i] {
                PathPart::Field(name) => {
                    s.append(".");
                    s.append(name.as_str());
                    proof {
                        reveal_strlit(".");
                        assert("."@ =~= seq!['.']);
                        assert((render_path(self@.skip(i as int + 1)) + "."@) + name@
                            =~= render_path(self@.skip(i as int + 1)) + (seq!['.'] + name@));
                    }
                },
                PathPart::Index(ix) => {
                    s.append("[");
                    let digits = dec_string(*ix as u64);
                    s.append(digits.as_str());
                    s.append("]");
                    proof {
                        reveal_strlit("[");
                        reveal_strlit("]");
                        assert("["@ =~= seq!['[']);
                        assert("]"@ =~= seq![']']);
                        assert(((render_path(self@.skip(i as int + 1)) + "["@) + dec_rep(
                            *ix as nat,
                        )) + "]"@ =~= render_path(self@.skip(i as int + 1)) + (seq!['['] + dec_rep(
                            *ix as nat,
                        ) + seq![']']));
                    }
                },
                PathPart::Key(k) => {
                    s.append("[\"");
                    s.append(k.as_str());
                    s.append("\"]");
                    proof {
                        reveal_strlit("[\"");
                        reveal_strlit("\"]");
                        assert("[\""@ =~= seq!['[', '"']);
                        assert("\"]"@ =~= seq!['"', ']']);
                        assert(((render_path(self@.skip(i as int + 1)) + "[\""@) + k@) + "\"]"@
                            =~= render_path(self@.skip(i as int + 1)) + (seq!['[', '"'] + k@
                            + seq!['"', ']']));
                    }
                },
            }
        }
        proof {
            assert(self@.skip(0) =~= self@);
        }
        s
    }
}

/// Appends to `s` the decimal digit character for `d`.
fn push_digit(s: &mut String, d: u64)
    requires
        d < 10,
    ensures
        final(s)@ == old(s)@ + seq![digit_char(d as int)],
{
    let t: &str = if d == 0 {
        "0"
    } else if d == 1 {
        "1"
    } else if d == 2 {
        "2"
    } else if d == 3 {
        "3"
    } else if d == 4 {
        "4"
    } else if d == 5 {
        "5"
    } else if d == 6 {
        "6"
    } else if d == 7 {
        "7"
    } else if d == 8 {
        "8"
    } else {
        "9"
    };
    proof {
        reveal_strlit("0");
        reveal_strlit("1");
        reveal_strlit("2");
        reveal_strlit("3");
        reveal_strlit("4");
        reveal_strlit("5");
        reveal_strlit("6");
        reveal_strlit("7");
        reveal_strlit("8");
        reveal_strlit("9");
        assert(t@ =~= seq![digit_char(d as int)]);
    }
    s.append(t);
}

/// The decimal display string of `n`, matching [`dec_rep`].
pub fn dec_string(n: u64) -> (s: String)
    ensures
        s@ == dec_rep(n as nat),
    decreases n,
{
    if n < 10 {
        let mut s = String::new();
        push_digit(&mut s, n);
        proof {
            assert(Seq::<char>::empty() + seq![digit_char(n as int)] =~= seq![
                digit_char(n as int),
            ]);
        }
        s
    } else {
        let mut s = dec_string(n / 10);
        push_digit(&mut s, n % 10);
        s
    }
}

} // verus!
