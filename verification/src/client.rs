//! What is asked of a provider.
use vstd::prelude::*;

use crate::conversation::{Conversation, MessageView};
use crate::json::{Json, JsonView};

verus! {

/// A tool that the provider may call.
#[derive(Debug, PartialEq, Eq)]
pub struct ToolDefinition {
    pub name: String,
    pub description: String,
    pub parameters: Json,
}

/// What a [`ToolDefinition`] holds.
#[verifier::ext_equal]
pub struct ToolView {
    pub name: Seq<char>,
    pub description: Seq<char>,
    pub parameters: JsonView,
}

impl View for ToolDefinition {
    type V = ToolView;

    open spec fn view(&self) -> ToolView {
        ToolView {
            name: self.name@,
            description: self.description@,
            parameters: self.parameters@,
        }
    }
}

impl Clone for ToolDefinition {
    fn clone(&self) -> (copy: Self)
        ensures
            copy@ == self@,
    {
        ToolDefinition {
            name: self.name.clone(),
            description: self.description.clone(),
            parameters: self.parameters.clone(),
        }
    }
}

/// The views of a sequence of tools.
pub open spec fn tool_views(tools: Seq<ToolDefinition>) -> Seq<ToolView> {
    tools.map_values(|tool: ToolDefinition| tool@)
}

/// A copy of each tool, in order.
pub fn copy_tools(tools: &Vec<ToolDefinition>) -> (copies: Vec<ToolDefinition>)
    ensures
        tool_views(copies@) == tool_views(tools@),
{
    let mut copies: Vec<ToolDefinition> = Vec::new();
    let mut i: usize = 0;
    while i < tools.len()
        invariant
            i <= tools@.len(),
            copies@.len() == i,
            forall|j: int| 0 <= j < i ==> (#[trigger] copies@[j])@ == tools@[j]@,
        decreases tools@.len() - i,
    {
        copies.push(tools[i].clone());
        i += 1;
    }
    assert(tool_views(copies@) =~= tool_views(tools@));
    copies
}

/// One request to a provider.
#[derive(Debug, PartialEq, Eq)]
pub struct ProviderRequest {
    pub system_prompt: String,
    pub conversation: Conversation,
    pub tools: Vec<ToolDefinition>,
}

/// What a [`ProviderRequest`] holds.
#[verifier::ext_equal]
pub struct RequestView {
    pub system_prompt: Seq<char>,
    pub conversation: Seq<MessageView>,
    pub tools: Seq<ToolView>,
}

impl View for ProviderRequest {
    type V = RequestView;

    open spec fn view(&self) -> RequestView {
        RequestView {
            system_prompt: self.system_prompt@,
            conversation: self.conversation@,
            tools: tool_views(self.tools@),
        }
    }
}

impl Clone for ProviderRequest {
    fn clone(&self) -> (copy: Self)
        ensures
            copy@ == self@,
    {
        ProviderRequest {
            system_prompt: self.system_prompt.clone(),
            conversation: self.conversation.clone(),
            tools: copy_tools(&self.tools),
        }
    }
}

} // verus!
