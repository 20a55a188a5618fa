//! Tags: named positions in the tag tree.

use vstd::prelude::*;
use crate::ids::TagId;
use crate::text::{clone_path, path_view};

verus! {

/// The colours a tag can be shown in.
#[derive(Clone, Copy, Debug, PartialEq, Eq, Structural)]
pub enum TagColors {
    Red,
    Orange,
    Yellow,
    Green,
    Blue,
    Purple,
    Gray,
}

/// A tag as the projection holds it.
#[derive(Debug)]
pub struct TagRecord {
    pub id: TagId,
    pub path: Vec<String>,
    pub color: Option<TagColors>,
}

/// A tag as contracts speak of it.
pub struct TagView {
    pub id: TagId,
    pub path: Seq<Seq<char>>,
    pub color: Option<TagColors>,
}

impl View for TagRecord {
    type V = TagView;

    open spec fn view(&self) -> TagView {
        TagView { id: self.id, path: path_view(self.path@), color: self.color }
    }
}

impl Clone for TagRecord {
    fn clone(&self) -> (r: TagRecord)
        ensures
            r@ == self@,
    {
        TagRecord { id: self.id, path: clone_path(&self.path), color: self.color }
    }
}

impl TagRecord {
    pub fn new(id: TagId, path: Vec<String>, color: Option<TagColors>) -> (t: TagRecord)
        ensures
            t@ == (TagView { id, path: path_view(path@), color }),
    {
        TagRecord { id, path, color }
    }

    pub fn get_id(&self) -> (id: TagId)
        ensures
            id == self@.id,
    {
        self.id
    }

    pub fn get_path(&self) -> (p: &Vec<String>)
        ensures
            path_view(p@) == self@.path,
    {
        &self.path
    }

    pub fn get_color(&self) -> (c: Option<TagColors>)
        ensures
            c == self@.color,
    {
        self.color
    }
}

} // verus!
