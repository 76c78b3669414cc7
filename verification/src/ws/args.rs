//! The arguments of a call.

use vstd::prelude::*;
use vstd::string::*;

use crate::chat::attachments::{attachment_views, AttachmentView, ChatAttachmentInput};
use crate::text::{copy_texts, text_view, texts};
use crate::ws::dispatch::{Arg, ArgView, Call};

verus! {

/// The text at a place among the arguments, when one is there.
pub open spec fn text_at(args: Seq<ArgView>, i: int) -> Option<Seq<char>> {
    if 0 <= i < args.len() {
        match args[i] {
            ArgView::Text(s) => Some(s),
            _ => None,
        }
    } else {
        None
    }
}

/// The number at a place among the arguments, when one is there.
pub open spec fn number_at(args: Seq<ArgView>, i: int) -> Option<u64> {
    if 0 <= i < args.len() {
        match args[i] {
            ArgView::Number(n) => Some(n),
            _ => None,
        }
    } else {
        None
    }
}

/// The text at a place, or an empty one.
pub open spec fn text_or_empty(args: Seq<ArgView>, i: int) -> Seq<char> {
    match text_at(args, i) {
        Some(s) => s,
        None => Seq::empty(),
    }
}

/// The number at a place as one of 32 bits, or another one.
pub open spec fn number_or(args: Seq<ArgView>, i: int, default: u32) -> u32 {
    match number_at(args, i) {
        Some(n) => if n <= u32::MAX {
            n as u32
        } else {
            default
        },
        None => default,
    }
}

/// The list of texts at a place, or an empty one.
pub open spec fn texts_at(args: Seq<ArgView>, i: int) -> Seq<Seq<char>> {
    if 0 <= i < args.len() {
        match args[i] {
            ArgView::Texts(v) => v,
            _ => Seq::empty(),
        }
    } else {
        Seq::empty()
    }
}

/// The attachments at a place, or none.
pub open spec fn attachments_at(args: Seq<ArgView>, i: int) -> Seq<AttachmentView> {
    if 0 <= i < args.len() {
        match args[i] {
            ArgView::Attachments(v) => v,
            _ => Seq::empty(),
        }
    } else {
        Seq::empty()
    }
}

/// The flag at a place among the arguments, when one is there.
pub open spec fn flag_at(args: Seq<ArgView>, i: int) -> Option<bool> {
    if 0 <= i < args.len() {
        match args[i] {
            ArgView::Flag(b) => Some(b),
            _ => None,
        }
    } else {
        None
    }
}

/// The number at a place as one of 32 bits, when one is there.
pub open spec fn small_at(args: Seq<ArgView>, i: int) -> Option<u32> {
    match number_at(args, i) {
        Some(n) => if n <= u32::MAX {
            Some(n as u32)
        } else {
            None
        },
        None => None,
    }
}

/// The number at a place as a size, when one is there.
pub open spec fn size_at(args: Seq<ArgView>, i: int) -> Option<usize> {
    match number_at(args, i) {
        Some(n) => if n <= usize::MAX {
            Some(n as usize)
        } else {
            None
        },
        None => None,
    }
}

/// The text at a place among the arguments.
pub fn take_text(call: &Call, i: usize) -> (r: Option<String>)
    ensures
        text_view(r) == text_at(call@.args, i as int),
{
    if i < call.args.len() {
        match &call.args[i] {
            Arg::Text(s) => Some(s.clone()),
            _ => None,
        }
    } else {
        None
    }
}

/// The text at a place, or an empty one.
pub fn take_text_or_empty(call: &Call, i: usize) -> (r: String)
    ensures
        r@ == text_or_empty(call@.args, i as int),
{
    match take_text(call, i) {
        Some(s) => s,
        None => {
            proof {
                reveal_strlit("");
                assert(""@ =~= Seq::<char>::empty());
            }
            "".to_owned()
        },
    }
}

/// The number at a place among the arguments.
pub fn take_number(call: &Call, i: usize) -> (r: Option<u64>)
    ensures
        r == number_at(call@.args, i as int),
{
    if i < call.args.len() {
        match &call.args[i] {
            Arg::Number(n) => Some(*n),
            _ => None,
        }
    } else {
        None
    }
}

/// The number at a place as one of 32 bits, or another one.
pub fn take_number_or(call: &Call, i: usize, default: u32) -> (r: u32)
    ensures
        r == number_or(call@.args, i as int, default),
{
    match take_number(call, i) {
        Some(n) => if n <= u32::MAX as u64 {
            n as u32
        } else {
            default
        },
        None => default,
    }
}

/// The list of texts at a place, or an empty one.
pub fn take_texts(call: &Call, i: usize) -> (r: Vec<String>)
    ensures
        texts(r@) == texts_at(call@.args, i as int),
{
    let none: Vec<String> = Vec::new();
    assert(texts(none@) =~= Seq::empty());
    if i < call.args.len() {
        match &call.args[i] {
            Arg::Texts(v) => copy_texts(v),
            _ => none,
        }
    } else {
        none
    }
}

fn copy_text(t: &Option<String>) -> (r: Option<String>)
    ensures
        text_view(r) == text_view(*t),
{
    match t {
        Some(s) => Some(s.clone()),
        None => None,
    }
}

/// The attachments at a place, or none.
pub fn take_attachments(call: &Call, i: usize) -> (r: Vec<ChatAttachmentInput>)
    ensures
        attachment_views(r@) == attachments_at(call@.args, i as int),
{
    let mut out: Vec<ChatAttachmentInput> = Vec::new();
    assert(attachment_views(out@) =~= Seq::empty());
    if i < call.args.len() {
        match &call.args[i] {
            Arg::Attachments(v) => {
                let ghost all = attachment_views(v@);
                let mut k: usize = 0;
                while k < v.len()
                    invariant
                        k <= v@.len(),
                        all == attachment_views(v@),
                        attachment_views(out@) == all.take(k as int),
                    decreases v@.len() - k,
                {
                    let ghost before = attachment_views(out@);
                    let a = ChatAttachmentInput {
                        name: v[k].name.clone(),
                        mime_type: copy_text(&v[k].mime_type),
                        base64: copy_text(&v[k].base64),
                        content: copy_text(&v[k].content),
                    };
                    out.push(a);
                    assert(attachment_views(out@) =~= before.push(a@));
                    assert(all.take(k + 1) =~= before.push(all[k as int]));
                    k += 1;
                }
                assert(all.take(k as int) =~= all);
            },
            _ => {},
        }
    }
    out
}

/// The flag at a place among the arguments.
pub fn take_flag(call: &Call, i: usize) -> (r: Option<bool>)
    ensures
        r == flag_at(call@.args, i as int),
{
    if i < call.args.len() {
        match &call.args[i] {
            Arg::Flag(b) => Some(*b),
            _ => None,
        }
    } else {
        None
    }
}

/// The number at a place as one of 32 bits.
pub fn take_small(call: &Call, i: usize) -> (r: Option<u32>)
    ensures
        r == small_at(call@.args, i as int),
{
    match take_number(call, i) {
        Some(n) => if n <= u32::MAX as u64 {
            Some(n as u32)
        } else {
            None
        },
        None => None,
    }
}

/// The number at a place as a size.
pub fn take_size(call: &Call, i: usize) -> (r: Option<usize>)
    ensures
        r == size_at(call@.args, i as int),
{
    match take_number(call, i) {
        Some(n) => if n <= usize::MAX as u64 {
            Some(n as usize)
        } else {
            None
        },
        None => None,
    }
}

} // verus!
