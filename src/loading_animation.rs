//! The "scanning..." indicator, in three lengths, with up to three animated dots.

use vstd::prelude::*;
use crate::style::{bold, bold_spec, styled_spec, styled_text, GRAY_LIGHT, WHITE};

verus! {

pub struct LoadingAnimation {
    scanning_indication: Option<Vec<&'static str>>,
    animation_offset: u8,
    background_color: u8,
    foreground_color: u8,
}

/// The text at `k`, or at the last index below `k` that exists; none when the
/// list is absent or empty.
pub open spec fn pick(texts: Option<Seq<&'static str>>, k: int) -> Option<Seq<char>> {
    match texts {
        None => None,
        Some(t) => if t.len() == 0 {
            None
        } else if k < t.len() {
            Some(t[k]@)
        } else {
            Some(t[t.len() - 1]@)
        },
    }
}

/// Length of a rendered text: its characters and room for three dots.
pub open spec fn len_of(text: Option<Seq<char>>) -> nat {
    match text {
        None => 0,
        Some(s) => s.len() + 3,
    }
}

pub open spec fn dots(offset: u8) -> Seq<char> {
    Seq::new((offset % 4) as nat, |i: int| '.')
}

impl LoadingAnimation {
    pub closed spec fn texts(&self) -> Option<Seq<&'static str>> {
        match self.scanning_indication {
            None => None,
            Some(v) => Some(v@),
        }
    }

    pub closed spec fn offset(&self) -> u8 {
        self.animation_offset
    }

    pub closed spec fn foreground(&self) -> u8 {
        self.foreground_color
    }

    pub closed spec fn background(&self) -> u8 {
        self.background_color
    }

    /// Every text leaves room for the dots in a `usize` length.
    pub open spec fn well_formed(&self) -> bool {
        match self.texts() {
            None => true,
            Some(t) => forall|i: int| 0 <= i < t.len() ==> #[trigger] t[i]@.len() + 3 <= usize::MAX,
        }
    }

    /// The text drawn at `k` with the dots of this frame, styled with the two colours.
    pub open spec fn rendered(&self, k: int, fg: u8, bg: u8) -> Seq<char> {
        match pick(self.texts(), k) {
            None => Seq::empty(),
            Some(s) => styled_spec(fg, bg, bold_spec(s + dots(self.offset()))),
        }
    }

    pub fn new(scanning_indication: &Option<Vec<&'static str>>, animation_offset: u8) -> (r: Self)
        requires
            match scanning_indication {
                None => true,
                Some(v) => forall|i: int| 0 <= i < v@.len() ==> #[trigger] v@[i]@.len() + 3 <= usize::MAX,
            },
        ensures
            r.texts() == (match scanning_indication {
                None => None::<Seq<&'static str>>,
                Some(v) => Some(v@),
            }),
            r.offset() == animation_offset,
            r.background() == GRAY_LIGHT,
            r.foreground() == WHITE,
            r.well_formed(),
    {
        let copy = match scanning_indication {
            None => None,
            Some(v) => {
                let mut c: Vec<&'static str> = Vec::new();
                let mut i: usize = 0;
                while i < v.len()
                    invariant
                        i <= v@.len(),
                        c@ == v@.subrange(0, i as int),
                    decreases v@.len() - i,
                {
                    c.push(v[i]);
                    i = i + 1;
                }
                assert(c@ =~= v@);
                Some(c)
            },
        };
        LoadingAnimation {
            scanning_indication: copy,
            animation_offset,
            background_color: GRAY_LIGHT,
            foreground_color: WHITE,
        }
    }

    /// The text at `k`, falling back to the nearest earlier one.
    fn text_at(&self, k: usize) -> (r: Option<&'static str>)
        ensures
            match r {
                None => pick(self.texts(), k as int) is None,
                Some(s) => pick(self.texts(), k as int) == Some(s@),
            },
    {
        match &self.scanning_indication {
            None => None,
            Some(v) => {
                if v.len() == 0 {
                    None
                } else if k < v.len() {
                    Some(v[k])
                } else {
                    Some(v[v.len() - 1])
                }
            },
        }
    }

    fn len_at(&self, k: usize) -> (r: usize)
        requires
            self.well_formed(),
        ensures
            r == len_of(pick(self.texts(), k as int)),
    {
        match self.text_at(k) {
            None => 0,
            Some(s) => {
                let n = s.unicode_len();
                proof {
                    let t = self.texts()->Some_0;
                    let j = if (k as int) < t.len() { k as int } else { t.len() - 1 };
                    assert(t[j]@.len() + 3 <= usize::MAX);
                }
                n + 3
            },
        }
    }

    /// Length of the full text and its dots.
    pub fn full_len(&self) -> (r: usize)
        requires
            self.well_formed(),
        ensures
            r == len_of(pick(self.texts(), 0)),
    {
        self.len_at(0)
    }

    /// Length of the middle text (or the full one) and its dots.
    pub fn mid_len(&self) -> (r: usize)
        requires
            self.well_formed(),
        ensures
            r == len_of(pick(self.texts(), 1)),
    {
        self.len_at(1)
    }

    /// Length of the short text (or the nearest longer one) and its dots.
    pub fn short_len(&self) -> (r: usize)
        requires
            self.well_formed(),
        ensures
            r == len_of(pick(self.texts(), 2)),
    {
        self.len_at(2)
    }

    fn render_at(&self, k: usize, fg: u8, bg: u8) -> (r: String)
        ensures
            r@ == self.rendered(k as int, fg, bg),
    {
        match self.text_at(k) {
            None => String::new(),
            Some(s) => {
                let mut text = String::from_str(s);
                let d = self.animation_dots();
                text.append(d.as_str());
                let b = bold(text.as_str());
                styled_text(fg, bg, b.as_str())
            },
        }
    }

    /// The full text, white on light gray.
    pub fn render_full_length(&self) -> (r: String)
        ensures
            r@ == self.rendered(0, self.foreground(), self.background()),
    {
        self.render_at(0, self.foreground_color, self.background_color)
    }

    /// The middle text, light gray on white.
    pub fn render_mid_length(&self) -> (r: String)
        ensures
            r@ == self.rendered(1, self.background(), self.foreground()),
    {
        self.render_at(1, self.background_color, self.foreground_color)
    }

    /// The short text, light gray on white.
    pub fn render_short_length(&self) -> (r: String)
        ensures
            r@ == self.rendered(2, self.background(), self.foreground()),
    {
        self.render_at(2, self.background_color, self.foreground_color)
    }

    /// One dot per frame, cycling through none to three.
    fn animation_dots(&self) -> (r: String)
        ensures
            r@ == dots(self.offset()),
    {
        let mut to_render = String::new();
        let dot_count: u8 = self.animation_offset % 4;
        let mut i: u8 = 0;
        while i < dot_count
            invariant
                i <= dot_count,
                dot_count == self.animation_offset % 4,
                to_render@ =~= Seq::new(i as nat, |j: int| '.'),
            decreases dot_count - i,
        {
            to_render.append(".");
            proof {
                reveal_strlit(".");
            }
            i = i + 1;
            assert(to_render@ =~= Seq::new(i as nat, |j: int| '.'));
        }
        to_render
    }
}

} // verus!
