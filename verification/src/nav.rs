//! Navigation inside a bucket: the back/forward history of visited
//! directory prefixes, and the path typed into the path box.

use vstd::prelude::*;
use crate::text::{push_char, string_of_range, trim, trim_end_char, trim_end_char_len, trimmed_chars};

verus! {

/// Back and forward stacks of visited prefixes (`None` is the bucket root)
/// around the current one.
pub struct PrefixHistory {
    back: Vec<Option<String>>,
    forward: Vec<Option<String>>,
    current: Option<String>,
}

/// A history as plain values: back stack, forward stack, current prefix.
pub type HistoryView = (Seq<Option<String>>, Seq<Option<String>>, Option<String>);

impl View for PrefixHistory {
    type V = HistoryView;

    closed spec fn view(&self) -> HistoryView {
        (self.back@, self.forward@, self.current)
    }
}

/// Visiting a prefix: the current one goes on the back stack, the forward
/// stack is dropped.
pub open spec fn visited(h: HistoryView, prefix: Option<String>) -> HistoryView {
    (h.0.push(h.2), Seq::empty(), prefix)
}

/// Going back: the last prefix of the back stack becomes current and the
/// current one goes on the forward stack; nothing happens with an empty
/// back stack.
pub open spec fn went_back(h: HistoryView) -> HistoryView {
    if h.0.len() == 0 {
        h
    } else {
        (h.0.drop_last(), h.1.push(h.2), h.0.last())
    }
}

/// Going forward: the mirror image of going back.
pub open spec fn went_forward(h: HistoryView) -> HistoryView {
    if h.1.len() == 0 {
        h
    } else {
        (h.0.push(h.2), h.1.drop_last(), h.1.last())
    }
}

impl PrefixHistory {
    /// A history with nothing to go back or forward to.
    pub fn new(current: Option<String>) -> (h: Self)
        ensures
            h@ == (Seq::<Option<String>>::empty(), Seq::<Option<String>>::empty(), current),
    {
        PrefixHistory { back: Vec::new(), forward: Vec::new(), current }
    }

    /// The current prefix.
    pub fn current(&self) -> (r: &Option<String>)
        ensures
            *r == self@.2,
    {
        &self.current
    }

    /// Whether there is a prefix to go back to.
    pub fn can_go_back(&self) -> (b: bool)
        ensures
            b == (self@.0.len() > 0),
    {
        self.back.len() > 0
    }

    /// Whether there is a prefix to go forward to.
    pub fn can_go_forward(&self) -> (b: bool)
        ensures
            b == (self@.1.len() > 0),
    {
        self.forward.len() > 0
    }

    /// Opens `prefix` (a directory, a typed path, or the root).
    pub fn visit(&mut self, prefix: Option<String>)
        ensures
            final(self)@ == visited(old(self)@, prefix),
    {
        let mut previous = prefix;
        std::mem::swap(&mut self.current, &mut previous);
        self.back.push(previous);
        self.forward = Vec::new();
    }

    /// Goes back one step; returns whether it moved.
    pub fn go_back(&mut self) -> (moved: bool)
        ensures
            final(self)@ == went_back(old(self)@),
            moved == (old(self)@.0.len() > 0),
    {
        match self.back.pop() {
            None => false,
            Some(previous) => {
                let mut here = previous;
                std::mem::swap(&mut self.current, &mut here);
                self.forward.push(here);
                true
            },
        }
    }

    /// Goes forward one step; returns whether it moved.
    pub fn go_forward(&mut self) -> (moved: bool)
        ensures
            final(self)@ == went_forward(old(self)@),
            moved == (old(self)@.1.len() > 0),
    {
        match self.forward.pop() {
            None => false,
            Some(next) => {
                let mut here = next;
                std::mem::swap(&mut self.current, &mut here);
                self.back.push(here);
                true
            },
        }
    }

    /// Opens the bucket root, unless it is already current.
    pub fn open_root(&mut self) -> (moved: bool)
        ensures
            moved == (old(self)@.2 is Some),
            moved ==> final(self)@ == visited(old(self)@, None),
            !moved ==> final(self)@ == old(self)@,
    {
        if self.current.is_none() {
            return false;
        }
        self.visit(None);
        true
    }

    /// Starts over in another bucket: at its root, with no history.
    pub fn reset(&mut self)
        ensures
            final(self)@ == (Seq::<Option<String>>::empty(), Seq::<Option<String>>::empty(), None::<String>),
    {
        self.back = Vec::new();
        self.forward = Vec::new();
        self.current = None;
    }
}

/// Visiting and then going back returns to where it started, with the
/// visited prefix on the forward stack.
pub proof fn law_back_undoes_visit(h: HistoryView, prefix: Option<String>)
    ensures
        went_back(visited(h, prefix)) == (h.0, seq![prefix], h.2),
{
    assert(h.0.push(h.2).drop_last() =~= h.0);
    assert(Seq::<Option<String>>::empty().push(prefix) =~= seq![prefix]);
}

/// Going back and then forward restores the history exactly.
pub proof fn law_forward_undoes_back(h: HistoryView)
    requires
        h.0.len() > 0,
    ensures
        went_forward(went_back(h)) == h,
{
    assert(h.0.drop_last().push(h.0.last()) =~= h.0);
    assert(h.1.push(h.2).drop_last() =~= h.1);
}

/// Going forward and then back restores the history exactly.
pub proof fn law_back_undoes_forward(h: HistoryView)
    requires
        h.1.len() > 0,
    ensures
        went_back(went_forward(h)) == h,
{
    assert(h.1.drop_last().push(h.1.last()) =~= h.1);
    assert(h.0.push(h.2).drop_last() =~= h.0);
}

// ---------------------------------------------------------------------------
// The path box
// ---------------------------------------------------------------------------

/// The prefix a typed path jumps to: the root for a blank path, else the
/// trimmed path with exactly one trailing `/`; a path that starts with `/`
/// is refused (paths are relative to the bucket).
pub open spec fn path_jump_of(raw: Seq<char>) -> Result<Option<Seq<char>>, Seq<char>> {
    let t = trim(raw);
    if t.len() == 0 {
        Ok(None)
    } else if t[0] == '/' {
        Err("路径不能以 / 开头（相对当前空间）"@)
    } else {
        Ok(Some(trim_end_char(t, '/').push('/')))
    }
}

/// The prefix the path box jumps to (see `path_jump_of`).
pub fn path_jump_prefix(raw: &str) -> (r: Result<Option<String>, String>)
    ensures
        match r {
            Ok(Some(p)) => path_jump_of(raw@) == Ok::<Option<Seq<char>>, Seq<char>>(Some(p@)),
            Ok(None) => path_jump_of(raw@) == Ok::<Option<Seq<char>>, Seq<char>>(None),
            Err(e) => path_jump_of(raw@) == Err::<Option<Seq<char>>, Seq<char>>(e@),
        },
{
    let t = trimmed_chars(raw);
    if t.len() == 0 {
        return Ok(None);
    }
    if t[0] == '/' {
        return Err(crate::text::string_from("路径不能以 / 开头（相对当前空间）"));
    }
    let n = trim_end_char_len(t.as_slice(), '/');
    let mut out = string_of_range(t.as_slice(), 0, n);
    push_char(&mut out, '/');
    Ok(Some(out))
}


/// What asking to type a path leads to.
pub enum PathInputRequest {
    /// Nothing (another dialog is open).
    Ignore,
    /// A notice instead of the path box.
    Notify(crate::model::DownloadMessage),
    /// The path box is open already: focus it.
    Focus,
    /// Open the path box with this text filled in.
    Open(String),
}

/// The response to asking to type a path: ignored while another dialog is
/// open; a notice without a selected bucket; the open box is focused;
/// otherwise a new box holding the current prefix (empty at the root).
pub fn path_input_request(blocked: bool, has_bucket: bool, box_open: bool, current: Option<&str>) -> (r: PathInputRequest)
    ensures
        blocked ==> r is Ignore,
        !blocked && !has_bucket ==> (r matches PathInputRequest::Notify(m) && m.is_error && m.text@
            == "请先选择一个 Bucket 再跳转路径"@),
        !blocked && has_bucket && box_open ==> r is Focus,
        !blocked && has_bucket && !box_open ==> (r matches PathInputRequest::Open(t) && (match current {
            Some(c) => t@ == c@,
            None => t@.len() == 0,
        })),
{
    if blocked {
        return PathInputRequest::Ignore;
    }
    if !has_bucket {
        return PathInputRequest::Notify(
            crate::model::DownloadMessage { is_error: true, text: crate::text::string_from("请先选择一个 Bucket 再跳转路径") },
        );
    }
    if box_open {
        return PathInputRequest::Focus;
    }
    match current {
        Some(c) => PathInputRequest::Open(crate::text::string_from(c)),
        None => PathInputRequest::Open(String::new()),
    }
}

} // verus!
