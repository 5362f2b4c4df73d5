use vstd::prelude::*;

verus! {

/// The script being edited, and where it is saved, if anywhere.
#[derive(Debug, Default)]
pub struct Document {
    content: String,
    path: Option<String>,
}

impl Document {
    pub closed spec fn content_spec(&self) -> Seq<char> {
        self.content@
    }

    pub closed spec fn path_spec(&self) -> Option<Seq<char>> {
        match self.path {
            Some(p) => Some(p@),
            None => None,
        }
    }

    /// A document with the given text, saved at `path` if one is given.
    pub fn new(content: String, path: Option<String>) -> (r: Document)
        ensures
            r.content_spec() == content@,
            r.path_spec() == (match path {
                Some(p) => Some(p@),
                None => None::<Seq<char>>,
            }),
    {
        Document { content, path }
    }

    /// Whether the document knows where to save itself.
    pub fn can_save(&self) -> (r: bool)
        ensures
            r == self.path_spec() is Some,
    {
        self.path.is_some()
    }

    pub fn set_path(&mut self, path: String)
        ensures
            final(self).path_spec() == Some(path@),
            final(self).content_spec() == old(self).content_spec(),
    {
        self.path = Some(path);
    }

    pub fn path(&self) -> (r: Option<&str>)
        ensures
            match r {
                Some(p) => self.path_spec() == Some(p@),
                None => self.path_spec() is None,
            },
    {
        match &self.path {
            Some(p) => Some(p.as_str()),
            None => None,
        }
    }

    pub fn content(&self) -> (r: &str)
        ensures
            r@ == self.content_spec(),
    {
        self.content.as_str()
    }

    pub fn content_mut(&mut self) -> (r: &mut String)
        ensures
            r@ == old(self).content_spec(),
            final(self).content_spec() == (*final(r))@,
            final(self).path_spec() == old(self).path_spec(),
    {
        &mut self.content
    }
}

} // verus!
