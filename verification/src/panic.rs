//! What a panic callback is told about a handler that panicked.

use std::any::Any;
use vstd::prelude::*;

use crate::handler_id::HandlerId;

verus! {

/// The payload of a caught panic, as `std::panic::catch_unwind` returns it;
/// its type is known only at run time, and a custom panic type is read back
/// with `payload.0.downcast_ref::<T>()`.
#[verifier::external_body]
pub struct PanicPayload<'a>(pub &'a (dyn Any + Send + 'static));

/// The text of a payload that is a `&'static str` (as `panic!("literal")`
/// leaves it), and `None` for a payload of any other type.
pub uninterp spec fn payload_literal(payload: PanicPayload<'_>) -> Option<Seq<char>>;

/// The text of a payload that is a `String` (as `panic!("{}", x)` leaves
/// it), and `None` for a payload of any other type.
pub uninterp spec fn payload_owned(payload: PanicPayload<'_>) -> Option<Seq<char>>;

impl<'a> PanicPayload<'a> {
    /// `<dyn Any>::downcast_ref::<&'static str>`: the payload, if it is a
    /// `&'static str`. Whether it is one is fixed by the payload, so the
    /// result is [`payload_literal`] of it.
    #[verifier::external_body]
    fn literal(&self) -> (text: Option<&'a &'static str>)
        ensures
            text is Some <==> payload_literal(*self) is Some,
            text is Some ==> payload_literal(*self) == Some(text.unwrap()@),
    {
        self.0.downcast_ref::<&'static str>()
    }

    /// `<dyn Any>::downcast_ref::<String>`: the payload, if it is a
    /// `String`. Whether it is one is fixed by the payload, so the result is
    /// [`payload_owned`] of it.
    #[verifier::external_body]
    fn owned(&self) -> (text: Option<&'a String>)
        ensures
            text is Some <==> payload_owned(*self) is Some,
            text is Some ==> payload_owned(*self) == Some(text.unwrap()@),
    {
        self.0.downcast_ref::<String>()
    }
}

/// Information about a panic that occurred inside a handler.
pub struct PanicInfo<'a> {
    handler_id: HandlerId,
    payload: PanicPayload<'a>,
}

impl<'a> PanicInfo<'a> {
    /// The id of the handler that panicked.
    pub closed spec fn panicked_id(&self) -> HandlerId {
        self.handler_id
    }

    /// The payload of the panic.
    pub closed spec fn carried_payload(&self) -> PanicPayload<'a> {
        self.payload
    }

    /// Describes the panic of the handler `handler_id` with its payload.
    pub fn new(handler_id: HandlerId, payload: PanicPayload<'a>) -> (info: Self)
        ensures
            info.panicked_id() == handler_id,
            info.carried_payload() == payload,
    {
        PanicInfo { handler_id, payload }
    }

    /// The id of the handler whose invocation panicked.
    pub fn handler_id(&self) -> (id: HandlerId)
        ensures
            id == self.panicked_id(),
    {
        self.handler_id
    }

    /// The raw panic payload, to be downcast to a custom panic type.
    pub fn payload(&self) -> (payload: &PanicPayload<'a>)
        ensures
            *payload == self.carried_payload(),
    {
        &self.payload
    }

    /// The message of the panic: the payload's text when it is a
    /// `&'static str`, else when it is a `String`, else none.
    pub open spec fn message_text(&self) -> Option<Seq<char>> {
        match payload_literal(self.carried_payload()) {
            Some(text) => Some(text),
            None => payload_owned(self.carried_payload()),
        }
    }

    /// The panic message when the payload is a `&'static str` (as from
    /// `panic!("literal")`) or a `String` (as from `panic!("{}", x)`);
    /// `None` for any other payload.
    pub fn message(&self) -> (text: Option<&'a str>)
        ensures
            match self.message_text() {
                Some(m) => text is Some && text.unwrap()@ == m,
                None => text is None,
            },
    {
        let literal = self.payload.literal();
        let owned = self.payload.owned();
        Self::select_message(literal, owned)
    }

    /// The message from the payload read as a `&'static str` (`literal`) and
    /// as a `String` (`owned`): the literal when there is one, else the
    /// owned text, else `None`.
    pub fn select_message(literal: Option<&'a &'static str>, owned: Option<&'a String>) -> (text:
        Option<&'a str>)
        ensures
            literal is Some ==> text == Some(*literal.unwrap()),
            literal is None && owned is Some ==> text is Some && text.unwrap()@
                == owned.unwrap()@,
            literal is None && owned is None ==> text is None,
    {
        match literal {
            Some(text) => Some(*text),
            None => match owned {
                Some(text) => Some(text.as_str()),
                None => None,
            },
        }
    }
}

/// An installed panic callback: a closure, boxed by the caller, as in
/// `PanicCallbackHolder(Box::new(|info: &PanicInfo<'_>| ...))`. Dispatching
/// runs it when a handler panics.
#[verifier::external_body]
pub struct PanicCallbackHolder(pub Box<dyn Fn(&PanicInfo<'_>) + Send + Sync + 'static>);

/// `text` quoted and escaped as `<str as Debug>` writes it.
pub uninterp spec fn debug_quoted_text(text: Seq<char>) -> Seq<char>;

/// `<str as Debug>::fmt`: `text` quoted and escaped as Rust writes it, which
/// depends on the text alone.
#[verifier::external_body]
fn debug_quoted(text: &str) -> (quoted: String)
    ensures
        quoted@ == debug_quoted_text(text@),
{
    format!("{:?}", text)
}

impl<'a> PanicInfo<'a> {
    /// `PanicInfo { handler_id: HandlerId(N), message: M }`, with `M` the
    /// message as `Some("...")` or `None`.
    pub open spec fn description(&self) -> Seq<char> {
        "PanicInfo { handler_id: HandlerId("@ + crate::handler_id::decimal_text(
            self.panicked_id()@ as nat,
        ) + "), message: "@ + match self.message_text() {
            Some(m) => "Some("@ + debug_quoted_text(m) + ")"@,
            None => "None"@,
        } + " }"@
    }

    /// A description for diagnostics:
    /// `PanicInfo { handler_id: HandlerId(N), message: M }`, with `M` the
    /// message as `Some("...")` or `None`.
    pub fn debug_string(&self) -> (text: String)
        ensures
            text@ == self.description(),
    {
        let mut text = String::new();
        text.append("PanicInfo { handler_id: HandlerId(");
        let id_text = self.handler_id.to_string();
        text.append(id_text.as_str());
        text.append("), message: ");
        let ghost prefix = text@;
        let ghost middle: Seq<char>;
        match self.message() {
            Some(message) => {
                text.append("Some(");
                let quoted = debug_quoted(message);
                text.append(quoted.as_str());
                text.append(")");
                proof {
                    middle = "Some("@ + quoted@ + ")"@;
                    assert(text@ =~= prefix + middle);
                }
            },
            None => {
                text.append("None");
                proof {
                    middle = "None"@;
                }
            },
        }
        text.append(" }");
        proof {
            assert(text@ =~= prefix + middle + " }"@);
            assert(prefix =~= "PanicInfo { handler_id: HandlerId("@ + crate::handler_id::decimal_text(
                self.panicked_id()@ as nat,
            ) + "), message: "@);
        }
        text
    }
}

} // verus!
