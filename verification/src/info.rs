//! The stack of informational messages printed with the next failure report.
//!
//! Messages and captured expressions are pushed while a scope runs and popped
//! when it ends.  The per-thread storage and the guard that pops on scope
//! exit live in the embedding binary; this module holds the stack itself as
//! an explicit [`InfoStack`] value, and renders its entries.

use vstd::prelude::*;
use vstd::string::*;

use crate::styles::spec_op_style;
use crate::styles::styled_text;

verus! {

/// One informational entry: a plain message, or a captured expression with
/// its formatted value.
pub enum Message {
    Text(String),
    Capture { expression: String, value: String },
}

/// The abstract form of a [`Message`].
pub ghost enum MessageModel {
    Text(Seq<char>),
    Capture { expression: Seq<char>, value: Seq<char> },
}

impl DeepView for Message {
    type V = MessageModel;

    open spec fn deep_view(&self) -> MessageModel {
        match self {
            Message::Text(t) => MessageModel::Text(t@),
            Message::Capture { expression, value } => MessageModel::Capture {
                expression: expression@,
                value: value@,
            },
        }
    }
}

/// The rendered text of one entry: the message itself, or
/// `expression = value` with the equals sign in the operator style when
/// styling is enabled.
pub open spec fn message_text(m: MessageModel, styled: bool) -> Seq<char> {
    match m {
        MessageModel::Text(t) => t,
        MessageModel::Capture { expression, value } => expression + " "@ + styled_text(
            spec_op_style(),
            "="@,
            styled,
        ) + " "@ + value,
    }
}

impl Message {
    /// Render this entry.
    pub fn render(&self, styled: bool) -> (r: String)
        ensures
            r@ == message_text(self.deep_view(), styled),
    {
        match self {
            Message::Text(t) => t.clone(),
            Message::Capture { expression, value } => {
                let mut out = expression.clone();
                out.append(" ");
                if styled {
                    let style = crate::styles::op_style();
                    let p = style.prefix();
                    out.append(p.as_str());
                    out.append("=");
                    let sfx = style.suffix();
                    out.append(sfx.as_str());
                } else {
                    out.append("=");
                }
                out.append(" ");
                out.append(value.as_str());
                out
            },
        }
    }
}

/// The per-thread stack of informational entries.
pub struct InfoStack {
    messages: Vec<Message>,
}

impl View for InfoStack {
    type V = Seq<MessageModel>;

    closed spec fn view(&self) -> Seq<MessageModel> {
        self.messages.deep_view()
    }
}

impl InfoStack {
    /// An empty stack.
    pub fn new() -> (r: InfoStack)
        ensures
            r@ == Seq::<MessageModel>::empty(),
    {
        let r = InfoStack { messages: Vec::new() };
        proof {
            assert(r@ =~= Seq::<MessageModel>::empty());
        }
        r
    }

    /// The rendered entries, bottom first.
    pub fn rendered(&self, styled: bool) -> (r: Vec<String>)
        ensures
            r@.len() == self@.len(),
            forall|i: int| 0 <= i < r@.len() ==> #[trigger] r@[i]@ == message_text(self@[i], styled),
    {
        let mut r: Vec<String> = Vec::new();
        let n = self.messages.len();
        let mut i: usize = 0;
        while i < n
            invariant
                i <= n,
                n == self@.len(),
                r@.len() == i,
                forall|k: int| 0 <= k < i ==> #[trigger] r@[k]@ == message_text(self@[k], styled),
            decreases n - i,
        {
            proof {
                assert(self@[i as int] == self.messages@[i as int].deep_view());
            }
            r.push(self.messages[i].render(styled));
            i = i + 1;
        }
        r
    }
}

/// Push a plain message onto the stack.
pub fn push_message(info: &mut InfoStack, message: String)
    ensures
        final(info)@ == old(info)@.push(MessageModel::Text(message@)),
{
    info.messages.push(Message::Text(message));
    proof {
        assert(info@ =~= old(info)@.push(MessageModel::Text(message@)));
    }
}

/// Push a captured expression and its formatted value onto the stack.
pub fn push_capture(info: &mut InfoStack, expression: String, value: String)
    ensures
        final(info)@ == old(info)@.push(
            MessageModel::Capture { expression: expression@, value: value@ },
        ),
{
    let ghost e = expression@;
    let ghost v = value@;
    info.messages.push(Message::Capture { expression, value });
    proof {
        assert(info@ =~= old(info)@.push(MessageModel::Capture { expression: e, value: v }));
    }
}

/// Remove the most recent entry, if any.
pub fn pop_info(info: &mut InfoStack)
    ensures
        final(info)@ == if old(info)@.len() > 0 {
            old(info)@.drop_last()
        } else {
            old(info)@
        },
{
    let popped = info.messages.pop();
    proof {
        if old(info)@.len() > 0 {
            assert(info@ =~= old(info)@.drop_last());
        } else {
            assert(info@ =~= old(info)@);
        }
    }
}

/// The number of entries on the stack.
pub fn info_count(info: &InfoStack) -> (r: usize)
    ensures
        r == info@.len(),
{
    info.messages.len()
}

/// The text with every line after the first pushed behind a two-space
/// margin: each newline gains two spaces after it.
pub open spec fn indent_spec(s: Seq<char>) -> Seq<char>
    decreases s.len(),
{
    if s.len() == 0 {
        Seq::empty()
    } else {
        (if s.first() == '\n' {
            seq!['\n', ' ', ' ']
        } else {
            seq![s.first()]
        }) + indent_spec(s.drop_first())
    }
}

/// Indent the continuation lines of a captured value.
pub fn indent(input: &str) -> (r: String)
    ensures
        r@ == indent_spec(input@),
{
    let n = input.unicode_len();
    let mut out = String::new();
    let mut i: usize = 0;
    proof {
        reveal_strlit("\n  ");
        assert("\n  "@ =~= seq!['\n', ' ', ' ']);
        assert(input@.skip(0) =~= input@);
    }
    while i < n
        invariant
            i <= n,
            n == input@.len(),
            "\n  "@ =~= seq!['\n', ' ', ' '],
            out@ + indent_spec(input@.skip(i as int)) == indent_spec(input@),
        decreases n - i,
    {
        let ghost rest = input@.skip(i as int);
        proof {
            assert(rest.first() == input@[i as int]);
            assert(rest.drop_first() =~= input@.skip(i as int + 1));
        }
        let c = input.get_char(i);
        if c == '\n' {
            out.append("\n  ");
        } else {
            let piece = input.substring_char(i, i + 1);
            proof {
                assert(piece@ =~= seq![rest.first()]);
            }
            out.append(piece);
        }
        i = i + 1;
    }
    proof {
        assert(input@.skip(n as int) =~= Seq::<char>::empty());
        assert(out@ + Seq::<char>::empty() =~= out@);
    }
    out
}

} // verus!
