//! The record kinds: a fixed table of entity kinds and of relationship kinds
//! between them.

use vstd::prelude::*;
use crate::document::same_text;

verus! {

/// Where an entity column takes its value from.
pub enum Field {
    /// The record's own id, its kind tag stripped.
    Id,
    /// A scalar text member; empty when missing or not text.
    Text(&'static str),
    /// A name member, one string or a list of them, joined with commas.
    Names(&'static str),
    /// A flag: `true` when the member holds exactly `truthy`, else `false`.
    Flag { key: &'static str, truthy: &'static str },
}

/// How the rows of a kind are made.
pub enum Shape {
    /// One row per document of `dir`, whose ids carry the tag `prefix`.
    Entity { dir: &'static str, prefix: char, fields: Vec<Field> },
    /// One row per reference from a document of kind `source` to one of kind
    /// `target` (indices in the registry).
    Relationship { source: usize, target: usize },
}

/// A record kind.
pub struct RecordKind {
    pub name: &'static str,
    /// The stem of the kind's output (file or table).
    pub export: &'static str,
    pub columns: Vec<&'static str>,
    pub shape: Shape,
}

/// The table of record kinds.
pub struct Registry {
    pub kinds: Vec<RecordKind>,
}

impl RecordKind {
    pub open spec fn is_entity(&self) -> bool {
        self.shape is Entity
    }

    /// The kind's columns agree with its shape: one field per column for an
    /// entity, a (source id, target id) pair for a relationship.
    pub open spec fn wf(&self) -> bool {
        match self.shape {
            Shape::Entity { fields, .. } => fields@.len() == self.columns@.len(),
            Shape::Relationship { .. } => self.columns@.len() == 2,
        }
    }

    pub open spec fn prefix(&self) -> char {
        self.shape->Entity_prefix
    }

    pub open spec fn dir(&self) -> &'static str {
        self.shape->Entity_dir
    }

    pub open spec fn fields(&self) -> Seq<Field> {
        self.shape->Entity_fields@
    }

    /// The names of the columns, as texts.
    pub open spec fn column_names(&self) -> Seq<Seq<char>> {
        Seq::new(self.columns@.len(), |i: int| self.columns@[i]@)
    }

    pub open spec fn source(&self) -> int {
        self.shape->Relationship_source as int
    }

    pub open spec fn target(&self) -> int {
        self.shape->Relationship_target as int
    }
}

impl Registry {
    /// Every kind is well formed, and a relationship's two ends are entity
    /// kinds of this registry.
    pub open spec fn wf(&self) -> bool {
        forall|k: int|
            0 <= k < self.kinds@.len() ==> {
                let kind = #[trigger] self.kinds@[k];
                &&& kind.wf()
                &&& !kind.is_entity() ==> {
                    &&& 0 <= kind.source() < self.kinds@.len()
                    &&& 0 <= kind.target() < self.kinds@.len()
                    &&& self.kinds@[kind.source()].is_entity()
                    &&& self.kinds@[kind.target()].is_entity()
                }
            }
    }

    /// The kind at `k`.
    pub open spec fn kind(&self, k: int) -> RecordKind {
        self.kinds@[k]
    }

    /// The directory whose documents a kind is made from: its own for an
    /// entity, its source kind's for a relationship.
    pub open spec fn scan_dir_of(&self, k: int) -> &'static str {
        if self.kind(k).is_entity() {
            self.kind(k).dir()
        } else {
            self.kind(self.kind(k).source()).dir()
        }
    }

    /// The index of the first kind named `name`.
    pub fn find(&self, name: &str) -> (r: Option<usize>)
        ensures
            r matches Some(k) ==> {
                &&& k < self.kinds@.len()
                &&& self.kinds@[k as int].name@ == name@
                &&& forall|j: int| 0 <= j < k ==> (#[trigger] self.kinds@[j]).name@ != name@
            },
            r is None ==> forall|j: int|
                0 <= j < self.kinds@.len() ==> (#[trigger] self.kinds@[j]).name@ != name@,
    {
        let mut i: usize = 0;
        while i < self.kinds.len()
            invariant
                i <= self.kinds@.len(),
                forall|j: int| 0 <= j < i ==> (#[trigger] self.kinds@[j]).name@ != name@,
            decreases self.kinds.len() - i,
        {
            if same_text(self.kinds[i].name, name) {
                return Some(i);
            }
            i = i + 1;
        }
        None
    }

    /// The directory that kind `k` is scanned from.
    pub fn scan_dir(&self, k: usize) -> (r: &'static str)
        requires
            self.wf(),
            k < self.kinds@.len(),
        ensures
            r == self.scan_dir_of(k as int),
    {
        match &self.kinds[k].shape {
            Shape::Entity { dir, .. } => *dir,
            Shape::Relationship { source, .. } => {
                match &self.kinds[*source].shape {
                    Shape::Entity { dir, .. } => *dir,
                    Shape::Relationship { .. } => "",
                }
            },
        }
    }
}

/// `f` takes the scalar text of member `key`.
pub open spec fn is_text_field(f: Field, key: Seq<char>) -> bool {
    f matches Field::Text(k) && k@ == key
}

/// `f` takes the names of member `key`.
pub open spec fn is_names_field(f: Field, key: Seq<char>) -> bool {
    f matches Field::Names(k) && k@ == key
}

/// The columns common to the named entity kinds.
pub open spec fn name_columns() -> Seq<Seq<char>> {
    seq!["id"@, "name"@, "name_en"@, "name_romaji"@, "name_alt"@]
}

/// The first five fields are the id, the Japanese, English and romanized
/// names, and the alternative names.
pub open spec fn has_name_fields(fields: Seq<Field>) -> bool {
    &&& fields.len() >= 5
    &&& fields[0] is Id
    &&& is_text_field(fields[1], "NAME_JP"@)
    &&& is_text_field(fields[2], "NAME_EN"@)
    &&& is_text_field(fields[3], "NAME_R"@)
    &&& is_names_field(fields[4], "NAME_ALT"@)
}

/// `kind` is an entity kind with the name columns and fields alone.
pub open spec fn is_named_entity(
    kind: RecordKind,
    name: Seq<char>,
    dir: Seq<char>,
    export: Seq<char>,
    prefix: char,
) -> bool {
    &&& kind.shape is Entity
    &&& kind.name@ == name
    &&& kind.dir()@ == dir
    &&& kind.export@ == export
    &&& kind.prefix() == prefix
    &&& kind.column_names() == name_columns()
    &&& kind.fields().len() == 5
    &&& has_name_fields(kind.fields())
}

/// `kind` is the convention kind: the name columns and fields, then the start
/// and end dates.
pub open spec fn is_convention(kind: RecordKind) -> bool {
    &&& kind.shape is Entity
    &&& kind.name@ == "Convention"@
    &&& kind.dir()@ == "Convention"@
    &&& kind.export@ == "conventions"@
    &&& kind.prefix() == 'C'
    &&& kind.column_names() == name_columns() + seq!["start_date"@, "end_date"@]
    &&& kind.fields().len() == 7
    &&& has_name_fields(kind.fields())
    &&& is_text_field(kind.fields()[5], "DATE_START"@)
    &&& is_text_field(kind.fields()[6], "DATE_END"@)
}

/// `kind` is a relationship kind from kind `source` to kind `target`.
pub open spec fn is_relationship(
    kind: RecordKind,
    name: Seq<char>,
    export: Seq<char>,
    source: int,
    target: int,
    source_column: Seq<char>,
    target_column: Seq<char>,
) -> bool {
    &&& kind.shape is Relationship
    &&& kind.name@ == name
    &&& kind.export@ == export
    &&& kind.source() == source
    &&& kind.target() == target
    &&& kind.column_names() == seq![source_column, target_column]
}

/// An entity kind with the common name columns: id, the three localized
/// names, and the alternative names.
fn named_entity(name: &'static str, dir: &'static str, export: &'static str, prefix: char) -> (r:
    RecordKind)
    ensures
        r.wf(),
        is_named_entity(r, name@, dir@, export@, prefix),
{
    let r = RecordKind {
        name,
        export,
        columns: vec!["id", "name", "name_en", "name_romaji", "name_alt"],
        shape: Shape::Entity {
            dir,
            prefix,
            fields: vec![
                Field::Id,
                Field::Text("NAME_JP"),
                Field::Text("NAME_EN"),
                Field::Text("NAME_R"),
                Field::Names("NAME_ALT"),
            ],
        },
    };
    assert(r.column_names() =~= name_columns());
    r
}

/// The convention kind.
fn convention() -> (r: RecordKind)
    ensures
        r.wf(),
        is_convention(r),
{
    let r = RecordKind {
        name: "Convention",
        export: "conventions",
        columns: vec![
            "id",
            "name",
            "name_en",
            "name_romaji",
            "name_alt",
            "start_date",
            "end_date",
        ],
        shape: Shape::Entity {
            dir: "Convention",
            prefix: 'C',
            fields: vec![
                Field::Id,
                Field::Text("NAME_JP"),
                Field::Text("NAME_EN"),
                Field::Text("NAME_R"),
                Field::Names("NAME_ALT"),
                Field::Text("DATE_START"),
                Field::Text("DATE_END"),
            ],
        },
    };
    assert(r.column_names() =~= name_columns() + seq!["start_date"@, "end_date"@]);
    r
}

/// A relationship kind from the documents of `source` to those of `target`.
fn relationship(
    name: &'static str,
    export: &'static str,
    source: usize,
    target: usize,
    source_column: &'static str,
    target_column: &'static str,
) -> (r: RecordKind)
    ensures
        r.wf(),
        is_relationship(
            r,
            name@,
            export@,
            source as int,
            target as int,
            source_column@,
            target_column@,
        ),
{
    let r = RecordKind {
        name,
        export,
        columns: vec![source_column, target_column],
        shape: Shape::Relationship { source, target },
    };
    assert(r.column_names() =~= seq![source_column@, target_column@]);
    r
}

pub const AUTHOR: usize = 0;
pub const CHARACTER: usize = 1;
pub const CHARACTER_TAG: usize = 2;
pub const TAG: usize = 3;
pub const CONVENTION: usize = 4;
pub const GENRE: usize = 5;
pub const SERIES: usize = 6;
pub const IMPRINT: usize = 7;
pub const PARODY: usize = 8;
pub const PARODY_CHARACTER: usize = 9;
pub const PARODY_TAG: usize = 10;
pub const PUBLISHER: usize = 11;
pub const TYPE: usize = 12;
pub const BOOK: usize = 13;
pub const BOOK_AUTHOR: usize = 14;
pub const BOOK_CHARACTER: usize = 15;
pub const BOOK_TAG: usize = 16;

/// How many kinds the catalog holds.
pub const KIND_COUNT: usize = 17;

/// The catalog's record kinds, at the indices named by the constants above.
pub fn catalog() -> (r: Registry)
    ensures
        r.wf(),
        r.kinds@.len() == KIND_COUNT,
        is_named_entity(r.kind(AUTHOR as int), "Author"@, "Author"@, "authors"@, 'A'),
        is_named_entity(r.kind(CHARACTER as int), "Character"@, "Character"@, "characters"@, 'H'),
        is_relationship(
            r.kind(CHARACTER_TAG as int),
            "CharacterTag"@,
            "character_tags"@,
            CHARACTER as int,
            TAG as int,
            "character_id"@,
            "tag_id"@,
        ),
        is_named_entity(r.kind(TAG as int), "Tag"@, "Content"@, "tags"@, 'K'),
        is_convention(r.kind(CONVENTION as int)),
        is_named_entity(r.kind(GENRE as int), "Genre"@, "Genre"@, "genres"@, 'G'),
        is_named_entity(r.kind(SERIES as int), "Series"@, "Collections"@, "series"@, 'O'),
        is_named_entity(r.kind(IMPRINT as int), "Imprint"@, "Imprint"@, "imprints"@, 'I'),
        is_named_entity(r.kind(PARODY as int), "Parody"@, "Parody"@, "parodies"@, 'P'),
        is_relationship(
            r.kind(PARODY_CHARACTER as int),
            "ParodyCharacter"@,
            "parody_characters"@,
            PARODY as int,
            CHARACTER as int,
            "parody_id"@,
            "character_id"@,
        ),
        is_relationship(
            r.kind(PARODY_TAG as int),
            "ParodyTag"@,
            "parody_tags"@,
            PARODY as int,
            TAG as int,
            "parody_id"@,
            "tag_id"@,
        ),
        is_named_entity(r.kind(PUBLISHER as int), "Publisher"@, "Publisher"@, "publishers"@, 'B'),
        is_named_entity(r.kind(TYPE as int), "Type"@, "Type"@, "types"@, 'T'),
        is_named_entity(r.kind(BOOK as int), "Book"@, "Book"@, "books"@, 'B'),
        is_relationship(
            r.kind(BOOK_AUTHOR as int),
            "BookAuthor"@,
            "book_authors"@,
            BOOK as int,
            AUTHOR as int,
            "book_id"@,
            "author_id"@,
        ),
        is_relationship(
            r.kind(BOOK_CHARACTER as int),
            "BookCharacter"@,
            "book_characters"@,
            BOOK as int,
            CHARACTER as int,
            "book_id"@,
            "character_id"@,
        ),
        is_relationship(
            r.kind(BOOK_TAG as int),
            "BookTag"@,
            "book_tags"@,
            BOOK as int,
            TAG as int,
            "book_id"@,
            "tag_id"@,
        ),
{
    let kinds = vec![
        named_entity("Author", "Author", "authors", 'A'),
        named_entity("Character", "Character", "characters", 'H'),
        relationship("CharacterTag", "character_tags", CHARACTER, TAG, "character_id", "tag_id"),
        named_entity("Tag", "Content", "tags", 'K'),
        convention(),
        named_entity("Genre", "Genre", "genres", 'G'),
        named_entity("Series", "Collections", "series", 'O'),
        named_entity("Imprint", "Imprint", "imprints", 'I'),
        named_entity("Parody", "Parody", "parodies", 'P'),
        relationship(
            "ParodyCharacter",
            "parody_characters",
            PARODY,
            CHARACTER,
            "parody_id",
            "character_id",
        ),
        relationship("ParodyTag", "parody_tags", PARODY, TAG, "parody_id", "tag_id"),
        // Publishers share the tag `B` with books; no relationship kind has
        // either as its target, so references to them are never told apart.
        named_entity("Publisher", "Publisher", "publishers", 'B'),
        named_entity("Type", "Type", "types", 'T'),
        named_entity("Book", "Book", "books", 'B'),
        relationship("BookAuthor", "book_authors", BOOK, AUTHOR, "book_id", "author_id"),
        relationship(
            "BookCharacter",
            "book_characters",
            BOOK,
            CHARACTER,
            "book_id",
            "character_id",
        ),
        relationship("BookTag", "book_tags", BOOK, TAG, "book_id", "tag_id"),
    ];
    Registry { kinds }
}

} // verus!
