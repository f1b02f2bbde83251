//! Splitting a compiled page into note fragments.
//!
//! The page arrives as plain values: the top-level headings of the document
//! (their label and plain text), and the direct children of its `<body>`
//! (whether each is an `h2` and with what first text, its serialized HTML,
//! and the targets of the anchors inside it). A note is a heading whose label
//! declares one; its fragment is the run of body nodes after the `h2` with
//! the same title, up to the next `h2`, wrapped in an `<article>`.

use vstd::prelude::*;
use vstd::string::StringExecFns;
use crate::ids::{NoteLink, NoteUuid, href_note, label_note, strip_prefix, strip_prefix_str};

verus! {

/// A top-level heading of the document.
pub struct Heading {
    pub label: Option<String>,
    pub text: String,
}

/// A direct child of the page body.
pub struct BodyNode {
    /// The first text of the node when it is an `h2` element.
    pub heading: Option<String>,
    /// The node serialized as HTML.
    pub html: String,
    /// The `href` of every anchor in the node, in document order.
    pub hrefs: Vec<String>,
}

/// One note cut out of a page.
pub struct NoteFragment {
    pub title: String,
    pub id: u128,
    pub html: String,
    pub links: Vec<u128>,
}

/// A heading's text without a leading `Section`.
pub open spec fn heading_title(text: Seq<char>) -> Seq<char> {
    match strip_prefix(text, "Section"@) {
        Some(t) => t,
        None => text,
    }
}

/// The notes that the headings declare, with their titles, in order.
pub open spec fn note_headings(hs: Seq<Heading>) -> Seq<(u128, Seq<char>)>
    decreases hs.len(),
{
    if hs.len() == 0 {
        Seq::empty()
    } else {
        let rest = note_headings(hs.drop_last());
        let h = hs.last();
        match h.label {
            Some(l) => match label_note(l@) {
                Ok(v) => rest.push((v, heading_title(h.text@))),
                Err(_) => rest,
            },
            None => rest,
        }
    }
}

/// The `h2` sections of the body: title, and the range of nodes after the
/// `h2` up to the next one. Nodes before the first `h2` belong to none.
pub open spec fn sections(body: Seq<BodyNode>) -> Seq<(Seq<char>, int, int)>
    decreases body.len(),
{
    if body.len() == 0 {
        Seq::empty()
    } else {
        let rest = sections(body.drop_last());
        let n = body.len() as int;
        match body.last().heading {
            Some(t) => rest.push((t@, n, n)),
            None => if rest.len() > 0 {
                rest.update(rest.len() - 1, (rest.last().0, rest.last().1, n))
            } else {
                rest
            },
        }
    }
}

/// The first section titled `t`.
pub open spec fn find_section(secs: Seq<(Seq<char>, int, int)>, t: Seq<char>) -> Option<int>
    decreases secs.len(),
{
    if secs.len() == 0 {
        None
    } else {
        match find_section(secs.drop_last(), t) {
            Some(j) => Some(j),
            None => if secs.last().0 == t {
                Some(secs.len() - 1)
            } else {
                None
            },
        }
    }
}

/// The HTML of body nodes `start..end`, one after another.
pub open spec fn body_html(body: Seq<BodyNode>, start: int, end: int) -> Seq<char>
    decreases end - start,
{
    if end <= start {
        Seq::empty()
    } else {
        body_html(body, start, end - 1) + body[end - 1].html@
    }
}

/// The notes that a list of anchor targets links to, in order.
pub open spec fn href_links(hrefs: Seq<String>) -> Seq<u128>
    decreases hrefs.len(),
{
    if hrefs.len() == 0 {
        Seq::empty()
    } else {
        let rest = href_links(hrefs.drop_last());
        match href_note(hrefs.last()@) {
            Ok(v) => rest.push(v),
            Err(_) => rest,
        }
    }
}

/// The note links of body nodes `start..end`, in order.
pub open spec fn body_links(body: Seq<BodyNode>, start: int, end: int) -> Seq<u128>
    decreases end - start,
{
    if end <= start {
        Seq::empty()
    } else {
        body_links(body, start, end - 1) + href_links(body[end - 1].hrefs@)
    }
}

pub open spec fn article(inner: Seq<char>) -> Seq<char> {
    "<article>"@ + inner + "</article>"@
}

/// The fragments of a page: for each declared note whose title names a
/// section, its title, id, wrapped HTML and links.
pub open spec fn page_fragments(notes: Seq<(u128, Seq<char>)>, body: Seq<BodyNode>) -> Seq<(Seq<char>, u128, Seq<char>, Seq<u128>)>
    decreases notes.len(),
{
    if notes.len() == 0 {
        Seq::empty()
    } else {
        let rest = page_fragments(notes.drop_last(), body);
        let (id, t) = notes.last();
        match find_section(sections(body), t) {
            Some(j) => {
                let (_, s, e) = sections(body)[j];
                rest.push((t, id, article(body_html(body, s, e)), body_links(body, s, e)))
            },
            None => rest,
        }
    }
}

pub open spec fn fragment_view(f: NoteFragment) -> (Seq<char>, u128, Seq<char>, Seq<u128>) {
    (f.title@, f.id, f.html@, f.links@)
}

pub open spec fn section_view(v: Seq<(String, usize, usize)>) -> Seq<(Seq<char>, int, int)> {
    v.map_values(|p: (String, usize, usize)| (p.0@, p.1 as int, p.2 as int))
}

proof fn lemma_find_section(secs: Seq<(Seq<char>, int, int)>, t: Seq<char>)
    ensures
        match find_section(secs, t) {
            Some(j) => 0 <= j < secs.len() && secs[j].0 == t && forall|i: int| 0 <= i < j ==> secs[i].0 != t,
            None => forall|i: int| 0 <= i < secs.len() ==> secs[i].0 != t,
        },
    decreases secs.len(),
{
    if secs.len() > 0 {
        let front = secs.drop_last();
        lemma_find_section(front, t);
        assert forall|i: int| 0 <= i < front.len() implies front[i] == secs[i] by {}
    }
}

proof fn lemma_sections_bounds(body: Seq<BodyNode>)
    ensures
        forall|j: int| 0 <= j < sections(body).len() ==> 0 <= (#[trigger] sections(body)[j]).1 <= sections(body)[j].2 <= body.len(),
    decreases body.len(),
{
    if body.len() > 0 {
        let front = body.drop_last();
        lemma_sections_bounds(front);
        let rest = sections(front);
        let n = body.len() as int;
        assert forall|j: int| 0 <= j < sections(body).len() implies 0 <= (#[trigger] sections(body)[j]).1 <= sections(body)[j].2 <= body.len() by {
            if j < rest.len() {
                assert(0 <= rest[j].1 <= rest[j].2 <= front.len());
            }
        }
    }
}

/// The first section titled `t`.
fn first_section(secs: &Vec<(String, usize, usize)>, t: &String) -> (r: Option<usize>)
    ensures
        match r {
            Some(j) => j < secs@.len() && secs@[j as int].0@ == t@
                && forall|i: int| 0 <= i < j ==> secs@[i].0@ != t@,
            None => forall|i: int| 0 <= i < secs@.len() ==> secs@[i].0@ != t@,
        },
{
    let mut j: usize = 0;
    while j < secs.len()
        invariant
            j <= secs@.len(),
            forall|i: int| 0 <= i < j ==> secs@[i].0@ != t@,
        decreases secs@.len() - j,
    {
        if secs[j].0 == *t {
            return Some(j);
        }
        j += 1;
    }
    None
}

/// Appends the notes that `hrefs` links to.
fn push_href_links(out: &mut Vec<u128>, hrefs: &Vec<String>)
    ensures
        final(out)@ == old(out)@ + href_links(hrefs@),
{
    let ghost start = out@;
    let mut k: usize = 0;
    while k < hrefs.len()
        invariant
            k <= hrefs@.len(),
            out@ == start + href_links(hrefs@.take(k as int)),
        decreases hrefs@.len() - k,
    {
        proof {
            assert(hrefs@.take(k as int + 1).drop_last() =~= hrefs@.take(k as int));
        }
        match NoteLink::from_str(hrefs[k].as_str()) {
            Ok(NoteLink(v)) => {
                out.push(v);
            },
            Err(_) => {},
        }
        proof {
            assert(out@ =~= start + href_links(hrefs@.take(k as int + 1)));
        }
        k += 1;
    }
    proof {
        assert(hrefs@.take(hrefs@.len() as int) =~= hrefs@);
    }
}

/// The notes that the anchor targets `hrefs` link to (those of the form
/// `note://<uuid>`), duplicates kept, in order.
pub fn find_links(hrefs: &Vec<String>) -> (r: Vec<u128>)
    ensures
        r@ == href_links(hrefs@),
{
    let mut r: Vec<u128> = Vec::new();
    push_href_links(&mut r, hrefs);
    assert(r@ =~= href_links(hrefs@));
    r
}

/// The declared notes of the headings, with their titles.
fn collect_note_headings(headings: &Vec<Heading>) -> (r: Vec<(u128, String)>)
    ensures
        r@.map_values(|p: (u128, String)| (p.0, p.1@)) == note_headings(headings@),
{
    let mut r: Vec<(u128, String)> = Vec::new();
    let mut k: usize = 0;
    while k < headings.len()
        invariant
            k <= headings@.len(),
            r@.map_values(|p: (u128, String)| (p.0, p.1@)) == note_headings(headings@.take(k as int)),
        decreases headings@.len() - k,
    {
        proof {
            assert(headings@.take(k as int + 1).drop_last() =~= headings@.take(k as int));
        }
        let h = &headings[k];
        let ghost before = r@;
        match &h.label {
            Some(l) => match NoteUuid::from_str(l.as_str()) {
                Ok(NoteUuid(v)) => {
                    let title = match strip_prefix_str(h.text.as_str(), "Section") {
                        Some(t) => String::from_str(t),
                        None => h.text.clone(),
                    };
                    r.push((v, title));
                    proof {
                        assert(r@.map_values(|p: (u128, String)| (p.0, p.1@)) =~= before.map_values(
                            |p: (u128, String)| (p.0, p.1@),
                        ).push((v, heading_title(h.text@))));
                    }
                },
                Err(_) => {},
            },
            None => {},
        }
        k += 1;
    }
    proof {
        assert(headings@.take(headings@.len() as int) =~= headings@);
    }
    r
}

/// The `h2` sections of the body.
fn collect_sections(body: &Vec<BodyNode>) -> (r: Vec<(String, usize, usize)>)
    ensures
        section_view(r@) == sections(body@),
{
    let mut r: Vec<(String, usize, usize)> = Vec::new();
    let mut k: usize = 0;
    while k < body.len()
        invariant
            k <= body@.len(),
            section_view(r@) == sections(body@.take(k as int)),
        decreases body@.len() - k,
    {
        proof {
            assert(body@.take(k as int + 1).drop_last() =~= body@.take(k as int));
        }
        let ghost before = r@;
        match &body[k].heading {
            Some(t) => {
                r.push((t.clone(), k + 1, k + 1));
                proof {
                    assert(section_view(r@) =~= section_view(before).push((t@, k + 1, k + 1)));
                }
            },
            None => {
                if r.len() > 0 {
                    let (t, s, _) = r.pop().unwrap();
                    r.push((t, s, k + 1));
                    proof {
                        let sv = section_view(before);
                        assert(section_view(r@) =~= sv.update(sv.len() - 1, (sv.last().0, sv.last().1, k + 1)));
                    }
                }
            },
        }
        k += 1;
    }
    proof {
        assert(body@.take(body@.len() as int) =~= body@);
    }
    r
}

/// Cuts the page into note fragments: for each heading whose label declares
/// a note, in order, the first `h2` section with the same title gives the
/// fragment's HTML (wrapped in `<article>`) and its links. A note whose
/// title names no section gives no fragment.
pub fn extract_note_fragments(headings: &Vec<Heading>, body: &Vec<BodyNode>) -> (r: Vec<NoteFragment>)
    ensures
        r@.map_values(|f: NoteFragment| fragment_view(f)) == page_fragments(note_headings(headings@), body@),
{
    let notes = collect_note_headings(headings);
    let secs = collect_sections(body);
    let ghost nv = notes@.map_values(|p: (u128, String)| (p.0, p.1@));
    let ghost sv = sections(body@);
    proof {
        lemma_sections_bounds(body@);
    }
    let mut r: Vec<NoteFragment> = Vec::new();
    let mut k: usize = 0;
    while k < notes.len()
        invariant
            k <= notes@.len(),
            nv == notes@.map_values(|p: (u128, String)| (p.0, p.1@)),
            nv == note_headings(headings@),
            section_view(secs@) == sv,
            sv == sections(body@),
            forall|j: int| 0 <= j < sv.len() ==> 0 <= (#[trigger] sv[j]).1 <= sv[j].2 <= body@.len(),
            r@.map_values(|f: NoteFragment| fragment_view(f)) == page_fragments(nv.take(k as int), body@),
        decreases notes@.len() - k,
    {
        proof {
            assert(nv.take(k as int + 1).drop_last() =~= nv.take(k as int));
            assert(nv[k as int] == (notes@[k as int].0, notes@[k as int].1@));
            lemma_find_section(sv, notes@[k as int].1@);
        }
        let id = notes[k].0;
        let title = &notes[k].1;
        let ghost before = r@;
        let ghost tv = title@;
        match first_section(&secs, title) {
            Some(j) => {
                let s = secs[j].1;
                let e = secs[j].2;
                proof {
                    assert(sv[j as int] == (secs@[j as int].0@, s as int, e as int));
                    assert forall|i: int| 0 <= i < j implies sv[i].0 != tv by {
                        assert(sv[i].0 == secs@[i].0@);
                    }
                    let fj = find_section(sv, tv)->Some_0;
                    if fj < j {
                        assert(sv[fj].0 != tv);
                    }
                    if j < fj {
                        assert(sv[j as int].0 == tv);
                    }
                    assert(find_section(sv, tv) == Some(j as int));
                }
                let mut html = String::from_str("<article>");
                let mut links: Vec<u128> = Vec::new();
                let mut i: usize = s;
                while i < e
                    invariant
                        s <= i <= e <= body@.len(),
                        html@ == "<article>"@ + body_html(body@, s as int, i as int),
                        links@ == body_links(body@, s as int, i as int),
                    decreases e - i,
                {
                    html.append(body[i].html.as_str());
                    push_href_links(&mut links, &body[i].hrefs);
                    proof {
                        assert(html@ =~= "<article>"@ + body_html(body@, s as int, i as int + 1));
                        assert(links@ =~= body_links(body@, s as int, i as int + 1));
                    }
                    i += 1;
                }
                html.append("</article>");
                r.push(NoteFragment { title: title.clone(), id, html, links });
                proof {
                    assert(html@ =~= article(body_html(body@, s as int, e as int)));
                    assert(r@.map_values(|f: NoteFragment| fragment_view(f)) =~= page_fragments(nv.take(k as int + 1), body@));
                }
            },
            None => {
                proof {
                    assert forall|i: int| 0 <= i < sv.len() implies sv[i].0 != tv by {
                        assert(sv[i].0 == secs@[i].0@);
                    }
                    assert(find_section(sv, tv) is None);
                    assert(r@.map_values(|f: NoteFragment| fragment_view(f)) =~= page_fragments(nv.take(k as int + 1), body@));
                }
            },
        }
        k += 1;
    }
    proof {
        assert(nv.take(nv.len() as int) =~= nv);
    }
    r
}

} // verus!
