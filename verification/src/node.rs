//! One node of the module tree and the line of text that stands for it.

use crate::text::{decimal, push_char, push_decimal, push_spaced, spaced, texts};
use vstd::prelude::*;
use vstd::utf8::{decode_utf8, valid_utf8};

verus! {

/// What the tree shows of one module call.
#[derive(Debug, PartialEq, Eq)]
pub struct TreeNode {
    /// The name of the call, `*` for the project itself.
    pub name: String,
    /// The number of instances, where the call is counted.
    pub count: Option<usize>,
    /// The keys of the instances, where the call is keyed.
    pub for_each: Option<Vec<String>>,
    /// The bytes of the path of the directory that the call resolves to.
    pub source: Vec<u8>,
}

/// A node as plain values.
pub ghost struct NodeView {
    pub name: Seq<char>,
    pub count: Option<nat>,
    pub for_each: Option<Seq<Seq<char>>>,
    pub source: Seq<u8>,
}

/// A node whose path is not text cannot be shown.
#[derive(Debug, Clone, Copy, PartialEq, Eq, Structural)]
pub struct RenderError;

/// A count as a number.
pub open spec fn count_view(count: Option<usize>) -> Option<nat> {
    match count {
        Some(n) => Some(n as nat),
        None => None,
    }
}

/// The keys as texts.
pub open spec fn keys_view(keys: Option<Vec<String>>) -> Option<Seq<Seq<char>>> {
    match keys {
        Some(keys) => Some(texts(keys@)),
        None => None,
    }
}

impl View for TreeNode {
    type V = NodeView;

    open spec fn view(&self) -> NodeView {
        NodeView {
            name: self.name@,
            count: count_view(self.count),
            for_each: keys_view(self.for_each),
            source: self.source@,
        }
    }
}

impl NodeView {
    /// What follows the name: the count in square brackets where there is one,
    /// else the keys in braces where the call is keyed, else nothing.
    pub open spec fn suffix(self) -> Seq<char> {
        match self.count {
            Some(n) => seq!['['] + decimal(n) + seq![']'],
            None => match self.for_each {
                Some(keys) => seq!['{'] + spaced(keys) + seq!['}'],
                None => Seq::empty(),
            },
        }
    }

    /// The line of the node: its name, its suffix, a space and the path in
    /// parentheses. There is none where the path is not text.
    pub open spec fn label(self) -> Option<Seq<char>> {
        if valid_utf8(self.source) {
            Some(self.name + self.suffix() + seq![' ', '('] + decode_utf8(self.source) + seq![')'])
        } else {
            None
        }
    }
}

/// Calls `String::from_utf8`. Assumed, not proved: it gives a text exactly
/// where the bytes are valid UTF-8, and the text is what the bytes decode to.
#[verifier::external_body]
fn text_of(bytes: &Vec<u8>) -> (text: Option<String>)
    ensures
        text is Some <==> valid_utf8(bytes@),
        text matches Some(t) ==> t@ == decode_utf8(bytes@),
{
    String::from_utf8(bytes.clone()).ok()
}

impl TreeNode {
    /// The line of text that stands for the node.
    pub fn render(&self) -> (line: Result<String, RenderError>)
        ensures
            match line {
                Ok(text) => self@.label() == Some(text@),
                Err(_) => self@.label() is None,
            },
    {
        let path = match text_of(&self.source) {
            Some(path) => path,
            None => {
                return Err(RenderError);
            },
        };
        let mut text = self.name.clone();
        match self.count {
            Some(n) => {
                push_char(&mut text, '[');
                push_decimal(&mut text, n);
                push_char(&mut text, ']');
            },
            None => match &self.for_each {
                Some(keys) => {
                    push_char(&mut text, '{');
                    push_spaced(&mut text, keys);
                    push_char(&mut text, '}');
                },
                None => {},
            },
        }
        push_char(&mut text, ' ');
        push_char(&mut text, '(');
        text.append(path.as_str());
        push_char(&mut text, ')');
        assert(text@ =~= self@.name + self@.suffix() + seq![' ', '('] + decode_utf8(self@.source)
            + seq![')']);
        Ok(text)
    }
}

} // verus!
