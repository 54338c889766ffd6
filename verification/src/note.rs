use vstd::prelude::*;
use crate::font_icons;

verus! {

pub const DEFAULT_FOLDER_NAME: &'static str = "Some folder";

pub const DEFAULT_ROOT_NAME: &'static str = "notes";

pub const DEFAULT_TRASH_NAME: &'static str = "trash";

pub const DEFAULT_ICON: &'static str = font_icons::NOTE;

pub const DEFAULT_NAME: &'static str = "a note";

pub const DEFAULT_TITLE: &'static str = "Some new note title";

pub const SCRATCH_PAD_ICON: &'static str = font_icons::PENCIL_LINE;

pub const SCRATCH_PAD_NAME: &'static str = "Scratch Pad";

/// A leaf object of the store: plain text plus display metadata.
#[derive(Debug, PartialEq, Eq)]
pub struct Note {
    pub text: String,
    pub metadata: Metadata,
}

#[derive(Debug, PartialEq, Eq)]
pub struct Metadata {
    pub icon: String,
    pub is_scratch_pad: bool,
    pub modification_time: u64,
}

/// Whether `c` carries the Unicode `White_Space` property.
pub open spec fn is_space_char(c: char) -> bool {
    let u = c as u32;
    u == 0x09 || u == 0x0A || u == 0x0B || u == 0x0C || u == 0x0D || u == 0x20 || u == 0x85 || u
        == 0xA0 || u == 0x1680 || (0x2000 <= u && u <= 0x200A) || u == 0x2028 || u == 0x2029 || u
        == 0x202F || u == 0x205F || u == 0x3000
}

fn is_space(c: char) -> (b: bool)
    ensures
        b == is_space_char(c),
{
    let u = c as u32;
    u == 0x09 || u == 0x0A || u == 0x0B || u == 0x0C || u == 0x0D || u == 0x20 || u == 0x85 || u
        == 0xA0 || u == 0x1680 || (0x2000 <= u && u <= 0x200A) || u == 0x2028 || u == 0x2029 || u
        == 0x202F || u == 0x205F || u == 0x3000
}

impl Clone for Metadata {
    fn clone(&self) -> (r: Self)
        ensures
            r == *self,
    {
        Metadata {
            icon: self.icon.clone(),
            is_scratch_pad: self.is_scratch_pad,
            modification_time: self.modification_time,
        }
    }
}

impl Clone for Note {
    fn clone(&self) -> (r: Self)
        ensures
            r == *self,
    {
        Note { text: self.text.clone(), metadata: self.metadata.clone() }
    }
}

impl Default for Metadata {
    fn default() -> (r: Self)
        ensures
            r.icon@ == DEFAULT_ICON@,
            r.is_scratch_pad == false,
            r.modification_time == 0,
    {
        Metadata {
            icon: DEFAULT_ICON.to_owned(),
            is_scratch_pad: false,
            modification_time: 0,
        }
    }
}

impl Default for Note {
    fn default() -> (r: Self)
        ensures
            r.text@ == Seq::<char>::empty(),
            r.metadata.icon@ == DEFAULT_ICON@,
            r.metadata.is_scratch_pad == false,
    {
        Note { text: String::new(), metadata: Metadata::default() }
    }
}

impl Note {
    /// The dedicated scratch-pad note: empty text, its own icon, flagged.
    pub fn scratch_pad() -> (r: Self)
        ensures
            r.text@ == Seq::<char>::empty(),
            r.metadata.icon@ == SCRATCH_PAD_ICON@,
            r.metadata.is_scratch_pad == true,
    {
        Note {
            text: String::new(),
            metadata: Metadata {
                icon: SCRATCH_PAD_ICON.to_owned(),
                is_scratch_pad: true,
                modification_time: 0,
            },
        }
    }

    /// A note holding `text` verbatim, with default metadata.
    pub fn from_text(text: String) -> (r: Self)
        ensures
            r.text == text,
            r.metadata.icon@ == DEFAULT_ICON@,
            r.metadata.is_scratch_pad == false,
    {
        Note { text, metadata: Metadata::default() }
    }

    pub fn icon(&self) -> (r: &str)
        ensures
            r@ == self.metadata.icon@,
    {
        self.metadata.icon.as_str()
    }

    /// The prefix of the text before its first whitespace character, if the
    /// text has any whitespace at all.
    pub fn title(&self) -> (r: Option<&str>)
        ensures
            match r {
                Some(t) => exists|i: int|
                    0 <= i < self.text@.len() && is_space_char(self.text@[i]) && t@
                        == self.text@.subrange(0, i) && forall|j: int|
                        0 <= j < i ==> !is_space_char(#[trigger] self.text@[j]),
                None => forall|j: int|
                    0 <= j < self.text@.len() ==> !is_space_char(#[trigger] self.text@[j]),
            },
    {
        let s = self.text.as_str();
        let n = s.unicode_len();
        let mut i: usize = 0;
        while i < n
            invariant
                n == s@.len(),
                s@ == self.text@,
                0 <= i <= n,
                forall|j: int| 0 <= j < i ==> !is_space_char(#[trigger] s@[j]),
            decreases n - i,
        {
            let c = s.get_char(i);
            if is_space(c) {
                let t = s.substring_char(0, i);
                return Some(t);
            }
            i += 1;
        }
        None
    }

    pub fn is_scratch_pad(&self) -> (b: bool)
        ensures
            b == self.metadata.is_scratch_pad,
    {
        self.metadata.is_scratch_pad
    }

    /// Record an edit at time `now` (milliseconds since the Unix epoch).
    pub fn touch(&mut self, now: u64)
        ensures
            final(self).text == old(self).text,
            final(self).metadata.icon == old(self).metadata.icon,
            final(self).metadata.is_scratch_pad == old(self).metadata.is_scratch_pad,
            final(self).metadata.modification_time == now,
    {
        self.metadata.modification_time = now;
    }
}

} // verus!
