//! How CEF's permission requests are answered.
//!
//! CEF hands over a callback with each request, and waits until it is completed.
//! Whatever becomes of a request, its callback is completed exactly once, and only
//! an explicit decision completes it with a grant: see [`PendingAnswer`].

use crate::origin::parsed_url;
use crate::policy::{
    app_local, decides, permission_allowed, permits, PermissionDecision, PermissionRequest,
    PermissionRequestKind,
};
use vstd::prelude::*;

verus! {

/// The answer to a permission prompt.
#[derive(Debug, Clone, Copy, PartialEq, Eq)]
pub enum PromptResult {
    Accept,
    Deny,
}

/// The mask of granted permissions when none is granted.
pub const MEDIA_PERMISSION_NONE: u32 = 0;

/// The mask with which a request for media access is answered. All or nothing:
/// `getUserMedia` requires that the granted mask equals the requested one.
pub fn media_access_mask(granted: bool, requested_permissions: u32) -> (mask: u32)
    ensures
        mask == if granted {
            requested_permissions
        } else {
            MEDIA_PERMISSION_NONE
        },
        !granted ==> mask == 0,
{
    if granted {
        requested_permissions
    } else {
        MEDIA_PERMISSION_NONE
    }
}

/// The answer to a permission prompt.
pub fn prompt_result(granted: bool) -> (result: PromptResult)
    ensures
        result == if granted {
            PromptResult::Accept
        } else {
            PromptResult::Deny
        },
{
    if granted {
        PromptResult::Accept
    } else {
        PromptResult::Deny
    }
}

/// The request that the policy is shown. An origin that CEF does not report is
/// empty.
pub open spec fn shown_request<'a>(
    webview_label: &'a str,
    requesting_origin: Option<&'a str>,
    permissions: u32,
    kind: PermissionRequestKind,
) -> PermissionRequest<'a> {
    PermissionRequest {
        webview_label,
        requesting_origin: match requesting_origin {
            Some(origin) => origin,
            None => "",
        },
        permissions,
        kind,
    }
}

/// Whether a request is granted, as the policy decides on what it is shown.
pub open spec fn is_answered<'a, F: Fn(&PermissionRequest<'_>) -> PermissionDecision>(
    policy: Option<&F>,
    request: PermissionRequest<'a>,
    custom_schemes: Seq<String>,
    granted: bool,
) -> bool {
    exists|decision: PermissionDecision| #[trigger]
        decides(policy, &request, decision) && granted == permits(
            decision,
            parsed_url(request.requesting_origin@),
            custom_schemes,
        )
}

/// Answers a request for media access: the mask to complete the callback with.
/// `None` where there is no callback, and then the policy is not asked.
pub fn on_request_media_access_permission<F: Fn(&PermissionRequest<'_>) -> PermissionDecision>(
    has_callback: bool,
    policy: Option<&F>,
    custom_schemes: &[String],
    webview_label: &str,
    requesting_origin: Option<&str>,
    requested_permissions: u32,
) -> (mask: Option<u32>)
    requires
        policy is Some ==> call_requires(
            *policy->0,
            (&shown_request(
                webview_label,
                requesting_origin,
                requested_permissions,
                PermissionRequestKind::MediaAccess,
            ),),
        ),
    ensures
        mask is Some <==> has_callback,
        mask matches Some(mask) ==> mask == 0 || mask == requested_permissions,
        mask matches Some(mask) ==> exists|granted: bool| #[trigger]
            is_answered(
                policy,
                shown_request(
                    webview_label,
                    requesting_origin,
                    requested_permissions,
                    PermissionRequestKind::MediaAccess,
                ),
                custom_schemes@,
                granted,
            ) && mask == if granted {
                requested_permissions
            } else {
                MEDIA_PERMISSION_NONE
            },
{
    if !has_callback {
        return None;
    }
    let request = PermissionRequest {
        webview_label,
        requesting_origin: origin_or_empty(requesting_origin),
        permissions: requested_permissions,
        kind: PermissionRequestKind::MediaAccess,
    };
    let granted = permission_allowed(policy, &request, custom_schemes);
    assert(is_answered(policy, request, custom_schemes@, granted));
    Some(media_access_mask(granted, requested_permissions))
}

/// Answers a permission prompt: what to complete the callback with. `None` where
/// there is no callback, and then the policy is not asked.
pub fn on_show_permission_prompt<F: Fn(&PermissionRequest<'_>) -> PermissionDecision>(
    has_callback: bool,
    policy: Option<&F>,
    custom_schemes: &[String],
    webview_label: &str,
    requesting_origin: Option<&str>,
    requested_permissions: u32,
) -> (result: Option<PromptResult>)
    requires
        policy is Some ==> call_requires(
            *policy->0,
            (&shown_request(
                webview_label,
                requesting_origin,
                requested_permissions,
                PermissionRequestKind::Prompt,
            ),),
        ),
    ensures
        result is Some <==> has_callback,
        result matches Some(result) ==> exists|granted: bool| #[trigger]
            is_answered(
                policy,
                shown_request(
                    webview_label,
                    requesting_origin,
                    requested_permissions,
                    PermissionRequestKind::Prompt,
                ),
                custom_schemes@,
                granted,
            ) && result == if granted {
                PromptResult::Accept
            } else {
                PromptResult::Deny
            },
{
    if !has_callback {
        return None;
    }
    let request = PermissionRequest {
        webview_label,
        requesting_origin: origin_or_empty(requesting_origin),
        permissions: requested_permissions,
        kind: PermissionRequestKind::Prompt,
    };
    let granted = permission_allowed(policy, &request, custom_schemes);
    assert(is_answered(policy, request, custom_schemes@, granted));
    Some(prompt_result(granted))
}

/// The origin that CEF reports, empty where it reports none.
fn origin_or_empty<'a>(origin: Option<&'a str>) -> (text: &'a str)
    ensures
        text == match origin {
            Some(origin) => origin,
            None => "",
        },
{
    match origin {
        Some(origin) => origin,
        None => "",
    }
}

/// Where a request with its callback stands: it may be answered now or later, and
/// whoever is to answer it may give it up.
pub struct PendingAnswer {
    answered: bool,
}

/// What happens to a request.
pub enum AnswerEvent {
    /// A decision: `true` grants the request.
    Decided(bool),
    /// Whoever was to answer gives the request up.
    Abandoned,
}

impl PendingAnswer {
    /// Whether the callback was completed.
    pub closed spec fn answered(self) -> bool {
        self.answered
    }

    /// A request whose callback was not completed yet.
    pub fn new() -> (pending: PendingAnswer)
        ensures
            !pending.answered(),
    {
        PendingAnswer { answered: false }
    }

    /// What the callback is to be completed with, if it is to be: with the first
    /// decision, or with a denial where the request is given up before there is
    /// one. `None` where it was completed before.
    pub fn reply(&mut self, event: AnswerEvent) -> (reply: Option<bool>)
        ensures
            final(self).answered(),
            reply == next_reply(old(self).answered(), event),
    {
        if self.answered {
            return None;
        }
        self.answered = true;
        match event {
            AnswerEvent::Decided(granted) => Some(granted),
            AnswerEvent::Abandoned => Some(false),
        }
    }
}

/// What the callback is completed with on an event.
pub open spec fn next_reply(answered: bool, event: AnswerEvent) -> Option<bool> {
    if answered {
        None
    } else {
        match event {
            AnswerEvent::Decided(granted) => Some(granted),
            AnswerEvent::Abandoned => Some(false),
        }
    }
}

/// What the callback is completed with over a row of events: all replies in it.
pub open spec fn replies(answered: bool, events: Seq<AnswerEvent>) -> Seq<bool>
    decreases events.len(),
{
    if events.len() == 0 {
        Seq::empty()
    } else {
        let rest = replies(true, events.drop_first());
        match next_reply(answered, events[0]) {
            Some(reply) => seq![reply] + rest,
            None => rest,
        }
    }
}

/// A callback that was completed is not completed again.
proof fn no_second_reply(events: Seq<AnswerEvent>)
    ensures
        replies(true, events).len() == 0,
    decreases events.len(),
{
    if events.len() > 0 {
        no_second_reply(events.drop_first());
    }
}

/// Whatever happens to a request, as long as anything does, its callback is
/// completed exactly once, and with a grant only where the first thing that
/// happened was a decision that grants. That something happens is sure, because a
/// request that is dropped is given up.
pub proof fn a_request_is_answered_exactly_once(events: Seq<AnswerEvent>)
    requires
        events.len() > 0,
    ensures
        replies(false, events).len() == 1,
        replies(false, events)[0] <==> events[0] == AnswerEvent::Decided(true),
{
    no_second_reply(events.drop_first());
}

/// The policy is shown the request as it is, with an empty origin where CEF reports none.
pub proof fn the_policy_is_shown_the_request<'a>(
    webview_label: &'a str,
    requesting_origin: &'a str,
    permissions: u32,
    kind: PermissionRequestKind,
)
    ensures
        ({
            let shown = shown_request(webview_label, Some(requesting_origin), permissions, kind);
            &&& shown.webview_label == webview_label
            &&& shown.requesting_origin == requesting_origin
            &&& shown.permissions == permissions
            &&& shown.kind == kind
        }),
        ({
            let shown = shown_request(webview_label, None, permissions, kind);
            &&& shown.webview_label == webview_label
            &&& shown.requesting_origin@ == Seq::<char>::empty()
            &&& shown.permissions == permissions
            &&& shown.kind == kind
        }),
{
    reveal_strlit("");
    assert(""@ =~= Seq::<char>::empty());
}

/// A policy that allows grants, and one that denies does not, whatever the origin; where
/// it leaves the decision open, and where there is none, the default is granted to the
/// app's own origins alone.
pub proof fn decisions_are_carried_out<F: Fn(&PermissionRequest<'_>) -> PermissionDecision>(
    policy: &F,
    request: PermissionRequest<'_>,
    custom_schemes: Seq<String>,
    granted: bool,
)
    ensures
        is_answered(Some(policy), request, custom_schemes, granted) ==> exists|
            decision: PermissionDecision,
        | #[trigger]
            call_ensures(*policy, (&request,), decision) && match decision {
                PermissionDecision::Allow => granted,
                PermissionDecision::Deny => !granted,
                PermissionDecision::Default => granted == app_local(
                    parsed_url(request.requesting_origin@),
                    custom_schemes,
                ),
            },
        is_answered::<F>(None, request, custom_schemes, granted) <==> granted == app_local(
            parsed_url(request.requesting_origin@),
            custom_schemes,
        ),
{
    if is_answered(Some(policy), request, custom_schemes, granted) {
        let decision = choose|decision: PermissionDecision| #[trigger]
            decides(Some(policy), &request, decision) && granted == permits(
                decision,
                parsed_url(request.requesting_origin@),
                custom_schemes,
            );
        assert(call_ensures(*policy, (&request,), decision));
    }
    assert(decides::<F>(None, &request, PermissionDecision::Default));
}

/// The first event completes the callback: a decision with what was decided, and a
/// request that is given up with a denial. No later event completes it again.
pub proof fn the_first_event_answers(granted: bool, event: AnswerEvent)
    ensures
        next_reply(false, AnswerEvent::Decided(granted)) == Some(granted),
        next_reply(false, AnswerEvent::Abandoned) == Some(false),
        next_reply(true, event) is None,
{
}

} // verus!
