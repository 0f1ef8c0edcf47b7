//! The metadata record kept for one source file of the gallery.

use vstd::prelude::*;

verus! {

/// The mathematical value of a [`Thumb`] record.
#[verifier::ext_equal]
pub ghost struct ThumbView {
    pub name: Seq<char>,
    pub thumb: Option<Seq<char>>,
    pub width: Option<u32>,
    pub height: Option<u32>,
}

/// The record the cache keeps for one source file: the source's file name,
/// the derived thumbnail file name once one is known, and the thumbnail's
/// pixel dimensions once probing or generation succeeded.
#[derive(Debug)]
pub struct Thumb {
    pub name: String,
    pub thumb: Option<String>,
    pub width: Option<u32>,
    pub height: Option<u32>,
}

impl View for Thumb {
    type V = ThumbView;

    open spec fn view(&self) -> ThumbView {
        ThumbView {
            name: self.name@,
            thumb: match self.thumb {
                Some(t) => Some(t@),
                None => None,
            },
            width: self.width,
            height: self.height,
        }
    }
}

impl Clone for Thumb {
    fn clone(&self) -> (r: Self)
        ensures
            r@ == self@,
    {
        let r = Thumb {
            name: self.name.clone(),
            thumb: match &self.thumb {
                Some(t) => Some(t.clone()),
                None => None,
            },
            width: self.width,
            height: self.height,
        };
        proof {
            assert(r@ =~= self@);
        }
        r
    }
}

impl Default for Thumb {
    /// A record that knows nothing yet: no name, no thumbnail, no dimensions.
    fn default() -> (r: Self)
        ensures
            r@.name.len() == 0,
            r@.thumb is None,
            r@.width is None,
            r@.height is None,
    {
        Thumb { name: String::new(), thumb: None, width: None, height: None }
    }
}

impl Thumb {
    /// The same record with the probed or generated dimensions filled in.
    pub fn with_size(&self, width: u32, height: u32) -> (r: Thumb)
        ensures
            r@ == (ThumbView { width: Some(width), height: Some(height), ..self@ }),
    {
        let r = Thumb {
            name: self.name.clone(),
            thumb: match &self.thumb {
                Some(t) => Some(t.clone()),
                None => None,
            },
            width: Some(width),
            height: Some(height),
        };
        proof {
            assert(r@ =~= (ThumbView { width: Some(width), height: Some(height), ..self@ }));
        }
        r
    }
}

} // verus!
