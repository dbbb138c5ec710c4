//! Properties of an INI-style document gathered from its parsed lines:
//! each property is filed under the section named last before it.
use vstd::prelude::*;
use crate::str_map::StrMap;

verus! {

/// The parser of INI-style documents.
pub struct INIParser;

/// One parsed line of an INI-style document.
#[derive(Debug)]
pub enum IniLine {
    /// `[name]`.
    Section(String),
    /// `name = value`.
    Property(String, String),
    /// The end of the input.
    EndOfInput,
}

/// A parsed line as values.
pub enum IniLineView {
    Section(Seq<char>),
    Property(Seq<char>, Seq<char>),
    EndOfInput,
}

impl View for IniLine {
    type V = IniLineView;

    open spec fn view(&self) -> IniLineView {
        match self {
            IniLine::Section(n) => IniLineView::Section(n@),
            IniLine::Property(k, x) => IniLineView::Property(k@, x@),
            IniLine::EndOfInput => IniLineView::EndOfInput,
        }
    }
}

/// Lines taken by their views.
pub open spec fn lines_view(v: Seq<IniLine>) -> Seq<IniLineView> {
    v.map_values(|l: IniLine| l@)
}

/// Properties by section, each section's properties by name.
pub type Properties = Map<Seq<char>, Map<Seq<char>, Seq<char>>>;

/// The properties of `section`, none where it has none.
pub open spec fn section_of(props: Properties, section: Seq<char>) -> Map<Seq<char>, Seq<char>> {
    if props.contains_key(section) {
        props[section]
    } else {
        Map::empty()
    }
}

/// The properties gathered from the given lines, and the section named
/// last (empty before the first section).
pub open spec fn gather(lines: Seq<IniLineView>) -> (Properties, Seq<char>)
    decreases lines.len(),
{
    if lines.len() == 0 {
        (Map::empty(), Seq::empty())
    } else {
        let (props, current) = gather(lines.drop_last());
        match lines.last() {
            IniLineView::Section(n) => (props, n),
            IniLineView::Property(k, x) => (
                props.insert(current, section_of(props, current).insert(k, x)),
                current,
            ),
            IniLineView::EndOfInput => (props, current),
        }
    }
}

/// Files the properties of parsed lines under their sections; a section
/// appears only once it has a property.
pub fn collect_properties(lines: &Vec<IniLine>) -> (r: StrMap<StrMap<String>>)
    ensures
        r@ == gather(lines_view(lines@)).0,
{
    let ghost ls = lines_view(lines@);
    let mut props: StrMap<StrMap<String>> = StrMap::new();
    let mut current = String::new();
    let mut i: usize = 0;
    assert(ls.take(0) =~= Seq::<IniLineView>::empty());
    while i < lines.len()
        invariant
            i <= lines@.len(),
            ls == lines_view(lines@),
            gather(ls.take(i as int)) == (props@, current@),
        decreases lines@.len() - i,
    {
        assert(ls.take(i + 1).drop_last() =~= ls.take(i as int));
        match &lines[i] {
            IniLine::Section(name) => {
                current = name.clone();
            },
            IniLine::Property(name, value) => {
                let ghost before = props@;
                let mut section = match props.remove(current.as_str()) {
                    Some(m) => m,
                    None => StrMap::new(),
                };
                assert(section@ == section_of(before, current@));
                section.insert(name.clone(), value.clone());
                props.insert(current.clone(), section);
                assert(props@ =~= before.insert(current@, section_of(before, current@).insert(name@, value@)));
            },
            IniLine::EndOfInput => {},
        }
        i = i + 1;
    }
    assert(ls.take(i as int) =~= ls);
    props
}

/// A property is filed under the section named last before it: after any
/// lines `ls`, the section line `[n]` and the property `k = x`, section `n`
/// maps `k` to `x` and keeps its other properties, and every other section
/// is as the lines `ls` left it.
pub proof fn lemma_property_under_last_section(
    ls: Seq<IniLineView>,
    n: Seq<char>,
    k: Seq<char>,
    x: Seq<char>,
)
    ensures
        ({
            let before = gather(ls).0;
            let after = gather(ls + seq![IniLineView::Section(n), IniLineView::Property(k, x)]).0;
            &&& after.contains_key(n)
            &&& after[n] == section_of(before, n).insert(k, x)
            &&& after[n][k] == x
            &&& forall|m: Seq<char>| m != n ==> section_of(after, m) == section_of(before, m)
        }),
{
    let s = ls.push(IniLineView::Section(n));
    let t = ls + seq![IniLineView::Section(n), IniLineView::Property(k, x)];
    assert(t.drop_last() =~= s);
    assert(s.drop_last() =~= ls);
    assert(gather(s) == (gather(ls).0, n));
}

/// A section line makes its name the current section and files nothing;
/// the end of the input changes nothing.
pub proof fn lemma_section_line_names_current(ls: Seq<IniLineView>, n: Seq<char>)
    ensures
        gather(ls.push(IniLineView::Section(n))) == (gather(ls).0, n),
        gather(ls.push(IniLineView::EndOfInput)) == gather(ls),
{
    assert(ls.push(IniLineView::Section(n)).drop_last() =~= ls);
    assert(ls.push(IniLineView::EndOfInput).drop_last() =~= ls);
}

} // verus!
