//! Who a client says it is, in the system prompt of its request.
use vstd::prelude::*;

use crate::routing;
use crate::text;
use crate::text::{stripped_prefix, trimmed};

verus! {

/// A system message.
#[derive(Debug, Clone)]
pub struct SystemMessage {
    pub message_type: String,
    pub text: String,
}

/// The system prompt of a request.
#[derive(Debug, Clone)]
pub enum SystemPrompt {
    Single(String),
    Multiple(Vec<SystemMessage>),
}

/// The texts of a system prompt, in their order.
pub open spec fn prompt_texts(prompt: SystemPrompt) -> Seq<Seq<char>> {
    match prompt {
        SystemPrompt::Single(content) => seq![content@],
        SystemPrompt::Multiple(messages) => Seq::new(
            messages@.len(),
            |i: int| messages@[i].text@,
        ),
    }
}

/// What follows the mark in a text that starts with it, white space aside.
pub open spec fn billing_value(content: Seq<char>) -> Option<Seq<char>> {
    match text::strip_prefix(text::trim(content), "x-anthropic-billing-header:"@) {
        Some(value) => Some(text::trim(value)),
        None => None,
    }
}

/// The value in the first of the texts that has one.
pub open spec fn first_billing_value(contents: Seq<Seq<char>>) -> Option<Seq<char>>
    decreases contents.len(),
{
    if contents.len() == 0 {
        None
    } else {
        routing::first_text(
            billing_value(contents.first()),
            first_billing_value(contents.drop_first()),
        )
    }
}

/// Who the client says it is.
pub open spec fn client_identity(prompt: Option<SystemPrompt>) -> Option<Seq<char>> {
    match prompt {
        Some(prompt) => first_billing_value(prompt_texts(prompt)),
        None => None,
    }
}

/// The first text that has a value gives the value of all.
pub proof fn lemma_first_value(contents: Seq<Seq<char>>, n: int)
    requires
        0 <= n <= contents.len(),
        forall|i: int| 0 <= i < n ==> billing_value(#[trigger] contents[i]) is None,
        n < contents.len() ==> billing_value(contents[n]) is Some,
    ensures
        first_billing_value(contents) == if n < contents.len() {
            billing_value(contents[n])
        } else {
            None
        },
    decreases n,
{
    if n > 0 {
        assert(billing_value(contents[0]) is None);
        let rest = contents.drop_first();
        assert(forall|i: int| 0 <= i < rest.len() ==> #[trigger] rest[i] == contents[i + 1]);
        lemma_first_value(rest, n - 1);
    }
}

/// The first message that names the client decides, whatever comes after it.
pub proof fn first_naming_message_decides(contents: Seq<Seq<char>>, n: int)
    requires
        0 <= n < contents.len(),
        forall|i: int| 0 <= i < n ==> billing_value(#[trigger] contents[i]) is None,
        billing_value(contents[n]) is Some,
    ensures
        first_billing_value(contents) == billing_value(contents[n]),
{
    lemma_first_value(contents, n);
}

/// What follows the mark in a text that starts with it, white space aside.
pub fn extract_billing_value(content: &str) -> (r: Option<String>)
    ensures
        text::text_option(r) == billing_value(content@),
{
    let plain = trimmed(content);
    match stripped_prefix(&plain, "x-anthropic-billing-header:") {
        Some(value) => Some(trimmed(&value)),
        None => None,
    }
}

/// Who the client says it is.
pub fn extract_client_identity(system: &Option<SystemPrompt>) -> (r: Option<String>)
    ensures
        text::text_option(r) == client_identity(*system),
{
    match system {
        None => None,
        Some(SystemPrompt::Single(content)) => {
            let ghost contents = seq![content@];
            proof {
                lemma_first_value(contents, if billing_value(content@) is Some {
                    0
                } else {
                    1
                });
            }
            extract_billing_value(content)
        },
        Some(SystemPrompt::Multiple(messages)) => {
            let ghost contents = prompt_texts(system->0);
            let mut i: usize = 0;
            while i < messages.len()
                invariant
                    i <= messages@.len(),
                    contents == Seq::new(messages@.len(), |i: int| messages@[i].text@),
                    contents == prompt_texts(system->0),
                    *system is Some,
                    forall|j: int| 0 <= j < i ==> billing_value(#[trigger] contents[j]) is None,
                decreases messages@.len() - i,
            {
                assert(contents[i as int] == messages@[i as int].text@);
                if let Some(value) = extract_billing_value(&messages[i].text) {
                    proof {
                        lemma_first_value(contents, i as int);
                    }
                    return Some(value);
                }
                i += 1;
            }
            proof {
                lemma_first_value(contents, i as int);
            }
            None
        },
    }
}

/// How a client is named in the log: as it says it is, or else by the prefix
/// that its headers give.
pub fn client_name(system: &Option<SystemPrompt>, prefix: Option<&str>) -> (r: Option<String>)
    ensures
        text::text_option(r) == routing::first_text(
            client_identity(*system),
            match prefix {
                Some(p) => Some(p@),
                None => None,
            },
        ),
{
    match extract_client_identity(system) {
        Some(name) => Some(name),
        None => match prefix {
            Some(p) => Some(p.to_owned()),
            None => None,
        },
    }
}

} // verus!
