use vstd::prelude::*;

use crate::tui::viewchar::{LineFormat, LineFormatType};

verus! {

/// The views of a sequence of formatted runs.
pub open spec fn formats_view(v: Seq<LineFormat>) -> Seq<(LineFormatType, Seq<char>)> {
    v.map_values(|f: LineFormat| f@)
}

/// Whether two lists of runs are the same.
pub fn formats_eq(a: &Vec<LineFormat>, b: &Vec<LineFormat>) -> (r: bool)
    ensures
        r == (formats_view(a@) == formats_view(b@)),
{
    if a.len() != b.len() {
        proof {
            assert(formats_view(a@).len() != formats_view(b@).len());
        }
        return false;
    }
    let mut i: usize = 0;
    while i < a.len()
        invariant
            a@.len() == b@.len(),
            i <= a@.len(),
            forall|j: int| 0 <= j < i ==> a@[j]@ == b@[j]@,
        decreases a@.len() - i,
    {
        if a[i].format != b[i].format || a[i].s != b[i].s {
            proof {
                assert(formats_view(a@)[i as int] != formats_view(b@)[i as int]);
            }
            return false;
        }
        i = i + 1;
    }
    assert(formats_view(a@) =~= formats_view(b@));
    true
}

/// A copy of a list of runs.
pub fn clone_formats(v: &Vec<LineFormat>) -> (c: Vec<LineFormat>)
    ensures
        formats_view(c@) == formats_view(v@),
{
    let mut c: Vec<LineFormat> = Vec::new();
    let mut i: usize = 0;
    while i < v.len()
        invariant
            i <= v@.len(),
            formats_view(c@) == formats_view(v@.subrange(0, i as int)),
        decreases v@.len() - i,
    {
        let f = LineFormat::new(v[i].format, v[i].s.clone());
        assert(f@ == v@[i as int]@);
        let ghost c0 = c@;
        c.push(f);
        assert(formats_view(c@) =~= formats_view(c0).push(f@));
        assert(v@.subrange(0, i + 1) =~= v@.subrange(0, i as int).push(v@[i as int]));
        assert(formats_view(v@.subrange(0, i + 1)) =~= formats_view(v@.subrange(0, i as int)).push(v@[i as int]@));
        i = i + 1;
        assert(formats_view(c@) =~= formats_view(v@.subrange(0, i as int)));
    }
    assert(v@.subrange(0, v@.len() as int) =~= v@);
    c
}

/// A row of a block: the runs it shows and whether it must be drawn again.
#[derive(Debug, Clone)]
pub struct RowUpdate {
    pub dirty: bool,
    pub formats: Vec<LineFormat>,
}

impl RowUpdate {
    /// A row showing `formats`, to be drawn.
    pub fn from_formats(formats: Vec<LineFormat>) -> (r: Self)
        ensures
            r.dirty,
            r.formats@ == formats@,
    {
        Self { dirty: true, formats }
    }

    /// A copy of the row.
    pub fn clone_row(&self) -> (r: Self)
        ensures
            r.dirty == self.dirty,
            formats_view(r.formats@) == formats_view(self.formats@),
    {
        Self { dirty: self.dirty, formats: clone_formats(&self.formats) }
    }
}

impl From<LineFormat> for RowUpdate {
    fn from(i: LineFormat) -> (r: Self)
        ensures
            r.dirty,
            r.formats@ == seq![i],
    {
        let mut formats = Vec::new();
        formats.push(i);
        Self { dirty: true, formats }
    }
}

impl vstd::std_specs::convert::FromSpecImpl<LineFormat> for RowUpdate {
    /// What `from` gives is stated on `from` itself, over the view of its vector.
    open spec fn obeys_from_spec() -> bool {
        false
    }

    open spec fn from_spec(i: LineFormat) -> Self {
        arbitrary()
    }
}

impl Default for RowUpdate {
    fn default() -> (r: Self)
        ensures
            r.dirty,
            r.formats@.len() == 0,
    {
        Self { dirty: true, formats: Vec::new() }
    }
}

impl PartialEq for RowUpdate {
    fn eq(&self, other: &Self) -> (r: bool) {
        formats_eq(&self.formats, &other.formats)
    }
}

impl vstd::std_specs::cmp::PartialEqSpecImpl for RowUpdate {
    open spec fn obeys_eq_spec() -> bool {
        true
    }

    open spec fn eq_spec(&self, other: &Self) -> bool {
        formats_view(self.formats@) == formats_view(other.formats@)
    }
}

impl Eq for RowUpdate {

}

} // verus!
