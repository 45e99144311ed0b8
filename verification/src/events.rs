//! The plain-value model of a relay-broadcast event.
//!
//! An inbound event is reduced to the fields the pipeline reads: identifier
//! and author as lowercase hex strings, the kind discriminant, the creation
//! time in UNIX seconds, and the ordered tag list. Each tag is a name (its
//! first element) with an optional first value.
use vstd::prelude::*;

verus! {

/// The kind discriminant that marks an event as a payment receipt.
pub const ZAP_RECEIPT_KIND: u16 = 9735;

/// One tag of an event: its name and its first value, if any.
#[derive(Clone, Debug)]
pub struct Tag {
    pub name: String,
    pub content: Option<String>,
}

pub ghost struct TagView {
    pub name: Seq<char>,
    pub content: Option<Seq<char>>,
}

impl View for Tag {
    type V = TagView;

    open spec fn view(&self) -> TagView {
        TagView {
            name: self.name@,
            content: match self.content {
                Some(c) => Some(c@),
                None => None,
            },
        }
    }
}

/// An event as the pipeline sees it: a receipt coming off the wire, or the
/// request nested inside a receipt's description tag.
#[derive(Clone, Debug)]
pub struct NoteEvent {
    /// Event identifier, lowercase hex.
    pub id: String,
    /// Author public key, lowercase hex.
    pub pubkey: String,
    /// Kind discriminant.
    pub kind: u16,
    /// Creation time, UNIX seconds.
    pub created_at: u64,
    /// Ordered tag list.
    pub tags: Vec<Tag>,
}

pub ghost struct NoteEventView {
    pub id: Seq<char>,
    pub pubkey: Seq<char>,
    pub kind: u16,
    pub created_at: u64,
    pub tags: Seq<TagView>,
}

impl View for NoteEvent {
    type V = NoteEventView;

    open spec fn view(&self) -> NoteEventView {
        NoteEventView {
            id: self.id@,
            pubkey: self.pubkey@,
            kind: self.kind,
            created_at: self.created_at,
            tags: self.tags@.map_values(|t: Tag| t@),
        }
    }
}

/// The first tag of `tags` whose name is `name`, if any.
pub open spec fn first_tag_named(tags: Seq<TagView>, name: Seq<char>) -> Option<TagView>
    decreases tags.len(),
{
    if tags.len() == 0 {
        None
    } else if tags[0].name == name {
        Some(tags[0])
    } else {
        first_tag_named(tags.drop_first(), name)
    }
}

/// If no tag up to position `i` carries the name, the first match in `tags`
/// is the first match in the rest.
proof fn lemma_first_tag_named_skip(tags: Seq<TagView>, name: Seq<char>, i: int)
    requires
        0 <= i <= tags.len(),
        forall|j: int| 0 <= j < i ==> tags[j].name != name,
    ensures
        first_tag_named(tags, name) == first_tag_named(tags.skip(i), name),
    decreases i,
{
    if i > 0 {
        assert(tags.drop_first() =~= tags.skip(1));
        lemma_first_tag_named_skip(tags.skip(1), name, i - 1);
        assert(tags.skip(1).skip(i - 1) =~= tags.skip(i));
    } else {
        assert(tags.skip(0) =~= tags);
    }
}

/// A match at position `i` with no earlier match is the first match.
pub proof fn lemma_first_tag_named_at(tags: Seq<TagView>, name: Seq<char>, i: int)
    requires
        0 <= i < tags.len(),
        tags[i].name == name,
        forall|j: int| 0 <= j < i ==> tags[j].name != name,
    ensures
        first_tag_named(tags, name) == Some(tags[i]),
{
    lemma_first_tag_named_skip(tags, name, i);
    assert(tags.skip(i)[0] == tags[i]);
}

/// With no match anywhere there is no first match.
pub proof fn lemma_first_tag_named_none(tags: Seq<TagView>, name: Seq<char>)
    requires
        forall|j: int| 0 <= j < tags.len() ==> tags[j].name != name,
    ensures
        first_tag_named(tags, name) is None,
{
    lemma_first_tag_named_skip(tags, name, tags.len() as int);
    assert(tags.skip(tags.len() as int) =~= Seq::<TagView>::empty());
}

/// The first tag of `tags` named `name`, scanning in order.
pub fn find_tag<'a>(tags: &'a Vec<Tag>, name: &String) -> (r: Option<&'a Tag>)
    ensures
        match r {
            Some(t) => first_tag_named(tags@.map_values(|t: Tag| t@), name@) == Some(t@),
            None => first_tag_named(tags@.map_values(|t: Tag| t@), name@) is None,
        },
{
    let ghost tagsv = tags@.map_values(|t: Tag| t@);
    let mut i: usize = 0;
    while i < tags.len()
        invariant
            0 <= i <= tags.len(),
            tagsv == tags@.map_values(|t: Tag| t@),
            forall|j: int| 0 <= j < i ==> tagsv[j].name != name@,
        decreases tags.len() - i,
    {
        if tags[i].name == *name {
            proof {
                lemma_first_tag_named_at(tagsv, name@, i as int);
            }
            return Some(&tags[i]);
        }
        i += 1;
    }
    proof {
        lemma_first_tag_named_none(tagsv, name@);
    }
    None
}

} // verus!
