//! An addon's metadata: what `addon.json` says of it, which files of its
//! folder stay out of the archive, and the JSON text that carries its
//! description, type and tags inside the archive's description field.

use crate::addon_format::{tag_exists, tag_names, type_exists, type_names};
use crate::bytestr::{bytes_eq, copy_bytes, lower, to_lower};
use crate::json::{
    child_list, child_value, document, get_child, import, member_views, quoted, texts,
    write_quoted, Member, MemberView,
};
use crate::wildcard::{pattern_matches, wildcard};
use vstd::prelude::*;
use vstd::string::StringSliceAdditionalSpecFns;

verus! {

/// What `addon.json` says of an addon, as a mathematical value.
pub struct InfoView {
    /// Why the file was refused; empty where it was not.
    pub error: Seq<u8>,
    pub title: Seq<u8>,
    pub description: Seq<u8>,
    pub addon_type: Seq<u8>,
    pub ignores: Seq<Seq<u8>>,
    pub tags: Seq<Seq<u8>>,
}

/// What `addon.json` says of an addon.
#[allow(non_snake_case)]
#[derive(Debug)]
pub struct CAddonJson {
    /// Why the file was refused; empty where it was not.
    pub m_strError: Vec<u8>,
    pub m_Title: Vec<u8>,
    pub m_Description: Vec<u8>,
    pub m_AddonType: Vec<u8>,
    /// Patterns for files that stay out of the archive.
    pub m_Ignores: Vec<Vec<u8>>,
    pub m_Tags: Vec<Vec<u8>>,
}

impl View for CAddonJson {
    type V = InfoView;

    open spec fn view(&self) -> InfoView {
        InfoView {
            error: self.m_strError@,
            title: self.m_Title@,
            description: self.m_Description@,
            addon_type: self.m_AddonType@,
            ignores: texts(self.m_Ignores@),
            tags: texts(self.m_Tags@),
        }
    }
}

/// The tags that the first `n` children of `tags` give, and whether each of
/// them is a known tag. A child without text gives no tag; the others give
/// their text in lower case; behind the first unknown tag no child is
/// looked at.
pub open spec fn checked_tags(children: Seq<Seq<u8>>, n: nat) -> (Seq<Seq<u8>>, bool)
    decreases n,
{
    if n == 0 {
        (Seq::empty(), true)
    } else {
        let (tags, known) = checked_tags(children, (n - 1) as nat);
        if !known || children[n - 1].len() == 0 {
            (tags, known)
        } else {
            (tags.push(lower(children[n - 1])), tag_names().contains(lower(children[n - 1])))
        }
    }
}

/// What the members of `addon.json` say of the addon.
pub open spec fn info_of(members: Seq<MemberView>) -> InfoView {
    let title = child_value(members, "title".spec_bytes(), Seq::empty());
    let description = child_value(
        members,
        "description".spec_bytes(),
        "Description".spec_bytes(),
    );
    let addon_type = lower(child_value(members, "type".spec_bytes(), Seq::empty()));
    let children = child_list(members, "tags".spec_bytes());
    let (tags, known) = checked_tags(children, children.len());
    let none = Seq::<Seq<u8>>::empty();
    let blank = Seq::<u8>::empty();
    if title.len() == 0 {
        InfoView {
            error: "title is empty!".spec_bytes(),
            title,
            description: blank,
            addon_type: blank,
            ignores: none,
            tags: none,
        }
    } else if addon_type.len() == 0 {
        InfoView {
            error: "type is empty!".spec_bytes(),
            title,
            description,
            addon_type,
            ignores: none,
            tags: none,
        }
    } else if !type_names().contains(addon_type) {
        InfoView {
            error: "type isn't a supported type!".spec_bytes(),
            title,
            description,
            addon_type,
            ignores: none,
            tags: none,
        }
    } else if children.len() > 2 {
        InfoView {
            error: "too many tags - specify 2 only!".spec_bytes(),
            title,
            description,
            addon_type,
            ignores: none,
            tags: none,
        }
    } else if !known {
        InfoView {
            error: "tag isn't a supported word!".spec_bytes(),
            title,
            description,
            addon_type,
            ignores: none,
            tags,
        }
    } else {
        InfoView {
            error: blank,
            title,
            description,
            addon_type,
            ignores: child_list(members, "ignore".spec_bytes()),
            tags,
        }
    }
}

/// What `addon.json` says of the addon, where `contents` is the file's
/// bytes, or `None` where the file could not be read.
pub open spec fn load(contents: Option<Seq<u8>>) -> InfoView {
    let none = Seq::<Seq<u8>>::empty();
    let blank = Seq::<u8>::empty();
    match contents {
        None => InfoView {
            error: "Couldn't find file".spec_bytes(),
            title: blank,
            description: blank,
            addon_type: blank,
            ignores: none,
            tags: none,
        },
        Some(text) => match document(text) {
            None => InfoView {
                error: "Couldn't parse json".spec_bytes(),
                title: blank,
                description: blank,
                addon_type: blank,
                ignores: none,
                tags: none,
            },
            Some(members) => info_of(members),
        },
    }
}

/// Whether a file of the addon's folder stays out of the archive:
/// `addon.json` itself, the droppings of file managers, and whatever matches
/// one of the patterns in `ignores`.
pub open spec fn ignored(ignores: Seq<Seq<u8>>, file: Seq<u8>) -> bool {
    ||| file == "addon.json".spec_bytes()
    ||| pattern_matches("*thumbs.db".spec_bytes(), lower(file))
    ||| pattern_matches("*desktop.ini".spec_bytes(), lower(file))
    ||| file == ".DS_Store".spec_bytes()
    ||| pattern_matches("*/.DS_Store".spec_bytes(), file)
    ||| exists|i: int| 0 <= i < ignores.len() && pattern_matches(#[trigger] ignores[i], file)
}

/// The test for a file that goes into the archive.
pub open spec fn wanted(ignores: Seq<Seq<u8>>) -> spec_fn(Seq<u8>) -> bool {
    |file: Seq<u8>| !ignored(ignores, file)
}

/// The first `n` tags as JSON strings, with commas between them.
pub open spec fn tag_list(tags: Seq<Seq<u8>>, n: nat) -> Seq<u8>
    decreases n,
{
    if n == 0 {
        Seq::empty()
    } else if n == 1 {
        quoted(tags[0])
    } else {
        tag_list(tags, (n - 1) as nat) + seq![0x2cu8] + quoted(tags[n - 1])
    }
}

/// The JSON text that carries a description, a type and tags: an object with
/// the keys `description`, `type` and `tags`, in this order and without
/// white space.
pub open spec fn description_json(description: Seq<u8>, addon_type: Seq<u8>, tags: Seq<Seq<u8>>) -> Seq<
    u8,
> {
    seq![0x7bu8] + quoted("description".spec_bytes()) + seq![0x3au8] + quoted(description) + seq![
        0x2cu8,
    ] + quoted("type".spec_bytes()) + seq![0x3au8] + quoted(addon_type) + seq![0x2cu8] + quoted(
        "tags".spec_bytes(),
    ) + seq![0x3au8, 0x5bu8] + tag_list(tags, tags.len()) + seq![0x5du8, 0x7du8]
}

/// The plain description that a description field carries: the text under
/// the key `description` where the field is a JSON document, the empty text
/// where the document has no such key, and the field itself where it is no
/// JSON document.
pub open spec fn plain_description(field: Seq<u8>) -> Seq<u8> {
    match document(field) {
        None => field,
        Some(members) => child_value(members, "description".spec_bytes(), Seq::empty()),
    }
}

/// The tags that a description field carries: the children under the key
/// `tags` where the field is a JSON document, none otherwise.
pub open spec fn carried_tags(field: Seq<u8>) -> Seq<Seq<u8>> {
    match document(field) {
        None => Seq::empty(),
        Some(members) => child_list(members, "tags".spec_bytes()),
    }
}

/// Copies a list of byte strings.
pub fn copy_list(list: &Vec<Vec<u8>>) -> (r: Vec<Vec<u8>>)
    ensures
        texts(r@) == texts(list@),
{
    let mut r: Vec<Vec<u8>> = Vec::new();
    let mut i: usize = 0;
    while i < list.len()
        invariant
            i <= list.len(),
            texts(r@) == texts(list@.subrange(0, i as int)),
        decreases list.len() - i,
    {
        let ghost before = texts(r@);
        r.push(copy_bytes(list[i].as_slice()));
        assert(texts(r@) =~= before.push(list@[i as int]@));
        i = i + 1;
        assert(texts(list@.subrange(0, i as int)) =~= before.push(list@[i - 1]@));
    }
    assert(list@.subrange(0, i as int) =~= list@);
    r
}

/// The text of the first member with the key `name`, or `fallback`.
pub fn value_or(members: &Vec<Member>, name: &[u8], fallback: &[u8]) -> (r: Vec<u8>)
    ensures
        r@ == child_value(member_views(members@), name@, fallback@),
{
    match get_child(members, name) {
        Some(m) => copy_bytes(m.value.as_slice()),
        None => copy_bytes(fallback),
    }
}

/// The children of the first member with the key `name`.
pub fn list_of(members: &Vec<Member>, name: &[u8]) -> (r: Vec<Vec<u8>>)
    ensures
        texts(r@) == child_list(member_views(members@), name@),
{
    match get_child(members, name) {
        Some(m) => copy_list(&m.children),
        None => {
            let r: Vec<Vec<u8>> = Vec::new();
            assert(texts(r@) =~= Seq::<Seq<u8>>::empty());
            r
        },
    }
}

/// Splits a description field into the plain description and the tags that
/// it carries. A field that is no JSON document is itself the description.
pub fn decode_description(field: Vec<u8>) -> (r: (Vec<u8>, Vec<Vec<u8>>))
    ensures
        r.0@ == plain_description(field@),
        texts(r.1@) == carried_tags(field@),
{
    match import(field.as_slice()) {
        None => {
            let tags: Vec<Vec<u8>> = Vec::new();
            assert(texts(tags@) =~= Seq::<Seq<u8>>::empty());
            (field, tags)
        },
        Some(members) => {
            let empty: Vec<u8> = Vec::new();
            let description = value_or(&members, "description".as_bytes(), empty.as_slice());
            let tags = list_of(&members, "tags".as_bytes());
            (description, tags)
        },
    }
}

/// Takes the tags from the children of `tags`, in lower case, up to the
/// first that is unknown, and tells whether all were known.
pub fn check_tags(children: &Vec<Vec<u8>>) -> (r: (Vec<Vec<u8>>, bool))
    ensures
        (texts(r.0@), r.1) == checked_tags(texts(children@), children@.len()),
{
    let mut tags: Vec<Vec<u8>> = Vec::new();
    let ghost all = texts(children@);
    assert(texts(tags@) =~= Seq::<Seq<u8>>::empty());
    let mut i: usize = 0;
    while i < children.len()
        invariant
            i <= children.len(),
            all == texts(children@),
            checked_tags(all, i as nat) == (texts(tags@), true),
        decreases children.len() - i,
    {
        assert(all[i as int] == children@[i as int]@);
        if children[i].len() > 0 {
            let tag = to_lower(children[i].as_slice());
            let known = tag_exists(tag.as_slice());
            let ghost before = texts(tags@);
            tags.push(tag);
            assert(texts(tags@) =~= before.push(tag@));
            if !known {
                proof {
                    lemma_checked_tags_stop(all, (i + 1) as nat, children@.len());
                }
                return (tags, false);
            }
        }
        i = i + 1;
    }
    (tags, true)
}

impl CAddonJson {
    /// A record that holds nothing but an error.
    fn refused(message: &str) -> (r: CAddonJson)
        ensures
            r@ == (InfoView {
                error: message.spec_bytes(),
                title: Seq::empty(),
                description: Seq::empty(),
                addon_type: Seq::empty(),
                ignores: Seq::empty(),
                tags: Seq::empty(),
            }),
    {
        let r = CAddonJson {
            m_strError: copy_bytes(message.as_bytes()),
            m_Title: Vec::new(),
            m_Description: Vec::new(),
            m_AddonType: Vec::new(),
            m_Ignores: Vec::new(),
            m_Tags: Vec::new(),
        };
        assert(r@.ignores =~= Seq::empty());
        assert(r@.tags =~= Seq::empty());
        r
    }

    /// Reads `addon.json`. `contents` is what the file holds, or `None`
    /// where it could not be read. Where the file is refused, the record
    /// says why under `m_strError`: it is no JSON document, it has no title
    /// or no type, its type or one of its tags is unknown, or its tags are
    /// more than two.
    pub fn new(contents: Option<&[u8]>) -> (r: CAddonJson)
        ensures
            r@ == load(
                match contents {
                    Some(text) => Some(text@),
                    None => None,
                },
            ),
    {
        let text = match contents {
            None => {
                return CAddonJson::refused("Couldn't find file");
            },
            Some(text) => text,
        };
        let members = match import(text) {
            None => {
                return CAddonJson::refused("Couldn't parse json");
            },
            Some(members) => members,
        };
        let empty: Vec<u8> = Vec::new();
        let mut info = CAddonJson::refused("title is empty!");
        info.m_Title = value_or(&members, "title".as_bytes(), empty.as_slice());
        if info.m_Title.len() == 0 {
            return info;
        }
        info.m_Description = value_or(
            &members,
            "description".as_bytes(),
            "Description".as_bytes(),
        );
        let kind = value_or(&members, "type".as_bytes(), empty.as_slice());
        info.m_AddonType = to_lower(kind.as_slice());
        if info.m_AddonType.len() == 0 {
            info.m_strError = copy_bytes("type is empty!".as_bytes());
            return info;
        }
        if !type_exists(info.m_AddonType.as_slice()) {
            info.m_strError = copy_bytes("type isn't a supported type!".as_bytes());
            return info;
        }
        let children = list_of(&members, "tags".as_bytes());
        if children.len() > 2 {
            info.m_strError = copy_bytes("too many tags - specify 2 only!".as_bytes());
            return info;
        }
        let (tags, known) = check_tags(&children);
        info.m_Tags = tags;
        if !known {
            info.m_strError = copy_bytes("tag isn't a supported word!".as_bytes());
            return info;
        }
        info.m_Ignores = list_of(&members, "ignore".as_bytes());
        info.m_strError = Vec::new();
        info
    }

    /// Takes out of `files` what stays out of the archive: `addon.json`,
    /// `thumbs.db`, `desktop.ini` and `.DS_Store` in any folder, and
    /// whatever matches one of the addon's own patterns. The files that
    /// stay keep their order.
    pub fn remove_ignored_files(&self, files: &mut Vec<Vec<u8>>)
        ensures
            texts(final(files)@) == texts(old(files)@).filter(wanted(self@.ignores)),
    {
        let mut kept: Vec<Vec<u8>> = Vec::new();
        let ghost all = texts(files@);
        let ghost test = wanted(self@.ignores);
        let mut i: usize = 0;
        proof {
            reveal(Seq::filter);
            assert(texts(kept@) =~= all.subrange(0, 0).filter(test));
        }
        while i < files.len()
            invariant
                i <= files.len(),
                all == texts(files@),
                test == wanted(self@.ignores),
                texts(kept@) == all.subrange(0, i as int).filter(test),
            decreases files.len() - i,
        {
            let skip = self.is_ignored(files[i].as_slice());
            let ghost before = texts(kept@);
            if !skip {
                kept.push(copy_bytes(files[i].as_slice()));
                assert(texts(kept@) =~= before.push(all[i as int]));
            }
            proof {
                reveal(Seq::filter);
                assert(all.subrange(0, i + 1).drop_last() =~= all.subrange(0, i as int));
            }
            i = i + 1;
        }
        assert(all.subrange(0, i as int) =~= all);
        *files = kept;
    }

    /// Tells whether a file stays out of the archive.
    pub fn is_ignored(&self, file: &[u8]) -> (r: bool)
        ensures
            r == ignored(self@.ignores, file@),
    {
        if bytes_eq(file, "addon.json".as_bytes()) {
            return true;
        }
        let low = to_lower(file);
        if wildcard("*thumbs.db".as_bytes(), low.as_slice()) {
            return true;
        }
        if wildcard("*desktop.ini".as_bytes(), low.as_slice()) {
            return true;
        }
        if bytes_eq(file, ".DS_Store".as_bytes()) {
            return true;
        }
        if wildcard("*/.DS_Store".as_bytes(), file) {
            return true;
        }
        let mut i: usize = 0;
        while i < self.m_Ignores.len()
            invariant
                i <= self.m_Ignores.len(),
                forall|k: int|
                    0 <= k < i ==> !pattern_matches(#[trigger] texts(self.m_Ignores@)[k], file@),
            decreases self.m_Ignores.len() - i,
        {
            if wildcard(self.m_Ignores[i].as_slice(), file) {
                assert(pattern_matches(texts(self.m_Ignores@)[i as int], file@));
                return true;
            }
            i = i + 1;
        }
        false
    }

    /// Writes the JSON text that carries the addon's description, type and
    /// tags inside an archive.
    pub fn build_description(&self) -> (r: Vec<u8>)
        ensures
            r@ == description_json(self@.description, self@.addon_type, self@.tags),
    {
        let mut out: Vec<u8> = Vec::new();
        out.push(0x7b);
        write_quoted(&mut out, "description".as_bytes());
        out.push(0x3a);
        write_quoted(&mut out, self.m_Description.as_slice());
        out.push(0x2c);
        write_quoted(&mut out, "type".as_bytes());
        out.push(0x3a);
        write_quoted(&mut out, self.m_AddonType.as_slice());
        out.push(0x2c);
        write_quoted(&mut out, "tags".as_bytes());
        out.push(0x3a);
        out.push(0x5b);
        let ghost head = out@;
        let ghost tags = texts(self.m_Tags@);
        let mut i: usize = 0;
        while i < self.m_Tags.len()
            invariant
                i <= self.m_Tags.len(),
                tags == texts(self.m_Tags@),
                out@ == head + tag_list(tags, i as nat),
            decreases self.m_Tags.len() - i,
        {
            if i > 0 {
                out.push(0x2c);
            }
            write_quoted(&mut out, self.m_Tags[i].as_slice());
            i = i + 1;
            assert(out@ =~= head + tag_list(tags, i as nat));
        }
        out.push(0x5d);
        out.push(0x7d);
        assert(out@ =~= description_json(self@.description, self@.addon_type, self@.tags));
        out
    }

    /// Why `addon.json` was refused; empty where it was not.
    #[allow(non_snake_case)]
    pub fn GetError(&self) -> (r: &Vec<u8>)
        ensures
            r@ == self@.error,
    {
        &self.m_strError
    }

    /// The addon's title.
    #[allow(non_snake_case)]
    pub fn GetTitle(&self) -> (r: &Vec<u8>)
        ensures
            r@ == self@.title,
    {
        &self.m_Title
    }

    /// The addon's description, in plain words.
    #[allow(non_snake_case)]
    pub fn GetDescription(&self) -> (r: &Vec<u8>)
        ensures
            r@ == self@.description,
    {
        &self.m_Description
    }

    /// The addon's type, in lower case.
    #[allow(non_snake_case)]
    pub fn GetType(&self) -> (r: &Vec<u8>)
        ensures
            r@ == self@.addon_type,
    {
        &self.m_AddonType
    }
}

/// Once a tag is unknown, further children change nothing.
pub proof fn lemma_checked_tags_stop(children: Seq<Seq<u8>>, n: nat, m: nat)
    requires
        n <= m,
        !checked_tags(children, n).1,
    ensures
        checked_tags(children, m) == checked_tags(children, n),
    decreases m - n,
{
    if n < m {
        lemma_checked_tags_stop(children, n, (m - 1) as nat);
    }
}

/// A description field that is no JSON document is itself the description,
/// and carries no tags.
pub proof fn lemma_plain_text_kept(field: Seq<u8>)
    requires
        document(field).is_none(),
    ensures
        plain_description(field) == field,
        carried_tags(field) == Seq::<Seq<u8>>::empty(),
{
}

} // verus!
