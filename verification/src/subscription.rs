//! Subscriptions: one query kept alive, run again whenever the store changes
//! an entity of a type it reads, and answered anew only when the response changes.

use vstd::prelude::*;
use crate::components::store::EntityChange;
use crate::error::QueryExecutionError;
use crate::execution::{checked_execution, root_type_name, ExecutionContext, Resolver};
use crate::query::ast::Name;
use crate::query::fragments::{path_contains, root_selection_set};
use crate::query::{execute_operation, QueryResult, QueryResultView};
use crate::schema::lists_name;
use crate::values::ValueView;

verus! {

/// A live subscription: the entity types it reads, the response it emitted
/// last, and whether it was canceled.
pub struct LiveSubscription {
    entity_types: Vec<Name>,
    last: Option<QueryResult>,
    canceled: bool,
}

/// The mathematical form of a [`LiveSubscription`].
pub struct SubscriptionView {
    pub entity_types: Seq<Name>,
    pub last: Option<QueryResultView>,
    pub canceled: bool,
}

/// A change notification as a subscription sees it: the type of the entity
/// that changed, and the response that the query has once the change is applied.
pub struct Notification {
    pub entity: Seq<char>,
    pub response: QueryResultView,
}

impl View for LiveSubscription {
    type V = SubscriptionView;

    closed spec fn view(&self) -> SubscriptionView {
        SubscriptionView {
            entity_types: self.entity_types@,
            last: match self.last {
                Some(response) => Some(response@),
                None => None,
            },
            canceled: self.canceled,
        }
    }
}

/// What a subscription makes of a response computed for it: nothing where it
/// was canceled or emitted the same response last; else it emits the
/// response and remembers it.
pub open spec fn offered(state: SubscriptionView, response: QueryResultView) -> (
    SubscriptionView,
    Option<QueryResultView>,
) {
    if state.canceled || state.last == Some(response) {
        (state, None)
    } else {
        (
            SubscriptionView {
                entity_types: state.entity_types,
                last: Some(response),
                canceled: state.canceled,
            },
            Some(response),
        )
    }
}

/// What a subscription makes of one notification: nothing where the entity
/// type is not one it reads; else what it makes of the response.
pub open spec fn notified(state: SubscriptionView, notification: Notification) -> (
    SubscriptionView,
    Option<QueryResultView>,
) {
    if lists_name(state.entity_types, notification.entity) {
        offered(state, notification.response)
    } else {
        (state, None)
    }
}

/// The state after, and the responses emitted for, a sequence of
/// notifications, in their order.
pub open spec fn run(state: SubscriptionView, notifications: Seq<Notification>) -> (
    SubscriptionView,
    Seq<QueryResultView>,
)
    decreases notifications.len(),
{
    if notifications.len() == 0 {
        (state, Seq::empty())
    } else {
        let (before, emitted) = run(state, notifications.drop_last());
        let (after, emission) = notified(before, notifications.last());
        match emission {
            Some(response) => (after, emitted.push(response)),
            None => (after, emitted),
        }
    }
}

/// The number of notifications that concern one of `entity_types`.
pub open spec fn relevant_count(entity_types: Seq<Name>, notifications: Seq<Notification>) -> nat
    decreases notifications.len(),
{
    if notifications.len() == 0 {
        0
    } else {
        let rest = relevant_count(entity_types, notifications.drop_last());
        if lists_name(entity_types, notifications.last().entity) {
            rest + 1
        } else {
            rest
        }
    }
}

/// A run changes neither the entity types of a subscription nor whether it
/// is canceled, and what it remembers is what it emitted last, if it emitted.
pub proof fn lemma_run(state: SubscriptionView, notifications: Seq<Notification>)
    ensures
        run(state, notifications).0.entity_types == state.entity_types,
        run(state, notifications).0.canceled == state.canceled,
        run(state, notifications).0.last == if run(state, notifications).1.len() == 0 {
            state.last
        } else {
            Some(run(state, notifications).1.last())
        },
    decreases notifications.len(),
{
    if notifications.len() > 0 {
        lemma_run(state, notifications.drop_last());
    }
}

/// Changes to entity types that a subscription does not read emit nothing
/// and leave it as it was.
pub proof fn law_unrelated_changes_emit_nothing(
    state: SubscriptionView,
    notifications: Seq<Notification>,
)
    requires
        forall|i: int|
            0 <= i < notifications.len() ==> !lists_name(
                state.entity_types,
                (#[trigger] notifications[i]).entity,
            ),
    ensures
        run(state, notifications) == (state, Seq::<QueryResultView>::empty()),
    decreases notifications.len(),
{
    if notifications.len() > 0 {
        law_unrelated_changes_emit_nothing(state, notifications.drop_last());
    }
}

/// A canceled subscription emits nothing.
pub proof fn law_canceled_emits_nothing(state: SubscriptionView, notifications: Seq<Notification>)
    requires
        state.canceled,
    ensures
        run(state, notifications) == (state, Seq::<QueryResultView>::empty()),
    decreases notifications.len(),
{
    if notifications.len() > 0 {
        law_canceled_emits_nothing(state, notifications.drop_last());
    }
}

/// A change to an entity type that the subscription reads, after which the
/// response is not the one emitted last, emits exactly that response.
pub proof fn law_new_response_is_emitted_once(state: SubscriptionView, notification: Notification)
    requires
        !state.canceled,
        lists_name(state.entity_types, notification.entity),
        state.last != Some(notification.response),
    ensures
        run(state, seq![notification]).1 == seq![notification.response],
        run(state, seq![notification]).0.last == Some(notification.response),
{
    let none = Seq::<Notification>::empty();
    assert(seq![notification].drop_last() =~= none);
    assert(run(state, none) == (state, Seq::<QueryResultView>::empty()));
    assert(seq![notification].last() == notification);
    assert(Seq::<QueryResultView>::empty().push(notification.response) =~= seq![
        notification.response,
    ]);
}

/// Equal responses in a row are emitted once: no two responses emitted one
/// after the other are equal, and the first is not the one that was emitted
/// before the run.
pub proof fn law_equal_responses_are_coalesced(
    state: SubscriptionView,
    notifications: Seq<Notification>,
)
    ensures
        ({
            let emitted = run(state, notifications).1;
            &&& forall|i: int| 0 <= i < emitted.len() - 1 ==> #[trigger] emitted[i] != emitted[i + 1]
            &&& emitted.len() > 0 ==> state.last != Some(emitted[0])
        }),
    decreases notifications.len(),
{
    if notifications.len() > 0 {
        law_equal_responses_are_coalesced(state, notifications.drop_last());
        lemma_run(state, notifications.drop_last());
    }
}

/// There is at most one emission for each change to an entity type that the
/// subscription reads.
pub proof fn law_at_most_one_emission_per_change(
    state: SubscriptionView,
    notifications: Seq<Notification>,
)
    ensures
        run(state, notifications).1.len() <= relevant_count(state.entity_types, notifications),
    decreases notifications.len(),
{
    if notifications.len() > 0 {
        law_at_most_one_emission_per_change(state, notifications.drop_last());
        lemma_run(state, notifications.drop_last());
    }
}

impl LiveSubscription {
    /// A subscription to changes of `entity_types` that has emitted `first`.
    pub fn new(entity_types: Vec<Name>, first: &QueryResult) -> (subscription: LiveSubscription)
        ensures
            subscription@ == (SubscriptionView {
                entity_types: entity_types@,
                last: Some(first@),
                canceled: false,
            }),
    {
        LiveSubscription { entity_types, last: Some(first.duplicate()), canceled: false }
    }

    /// Whether the subscription was canceled.
    pub fn is_canceled(&self) -> (canceled: bool)
        ensures
            canceled == self@.canceled,
    {
        self.canceled
    }

    /// Whether a change concerns an entity type that the subscription reads.
    pub fn is_relevant(&self, change: &EntityChange) -> (relevant: bool)
        ensures
            relevant == lists_name(self@.entity_types, change.key.entity@),
    {
        path_contains(&self.entity_types, &change.key.entity)
    }

    /// Cancels the subscription: nothing is emitted from now on.
    pub fn cancel(&mut self)
        ensures
            final(self)@ == (SubscriptionView {
                entity_types: old(self)@.entity_types,
                last: old(self)@.last,
                canceled: true,
            }),
    {
        self.canceled = true;
    }

    /// Takes a response computed for the subscription and hands it back
    /// where it is to be emitted.
    pub fn offer(&mut self, response: QueryResult) -> (emission: Option<QueryResult>)
        ensures
            final(self)@ == offered(old(self)@, response@).0,
            match emission {
                Some(emitted) => offered(old(self)@, response@).1 == Some(emitted@),
                None => offered(old(self)@, response@).1 is None,
            },
    {
        if self.canceled {
            return None;
        }
        let same = match &self.last {
            Some(last) => last.same_as(&response),
            None => false,
        };
        if same {
            None
        } else {
            self.last = Some(response.duplicate());
            Some(response)
        }
    }

    /// Reacts to a change notification: where the subscription is live and
    /// the change concerns an entity type it reads, the operation is run
    /// again and its response offered.
    pub fn on_change<R: Resolver>(
        &mut self,
        ctx: &ExecutionContext,
        resolver: &R,
        change: &EntityChange,
    ) -> (result: Result<Option<QueryResult>, QueryExecutionError>)
        ensures
            old(self)@.canceled || !lists_name(old(self)@.entity_types, change.key.entity@) ==> {
                &&& final(self)@ == old(self)@
                &&& result matches Ok(None)
            },
            !old(self)@.canceled && lists_name(old(self)@.entity_types, change.key.entity@)
                ==> match checked_execution(
                *ctx,
                *resolver,
                ValueView::Null,
                root_type_name(*ctx.operation),
                root_selection_set(*ctx.operation),
            ) {
                Ok(response) => {
                    &&& final(self)@ == offered(old(self)@, response).0
                    &&& match result {
                        Ok(Some(emitted)) => offered(old(self)@, response).1 == Some(emitted@),
                        Ok(None) => offered(old(self)@, response).1 is None,
                        Err(_) => false,
                    }
                },
                Err(e) => final(self)@ == old(self)@ && result == Err::<Option<QueryResult>, _>(e),
            },
    {
        if self.canceled || !self.is_relevant(change) {
            return Ok(None);
        }
        match execute_operation(ctx, resolver) {
            Ok(response) => Ok(self.offer(response)),
            Err(e) => Err(e),
        }
    }
}

/// Starts a subscription: runs the operation once and hands back the live
/// subscription with the first response, which is emitted.
pub fn execute_subscription<R: Resolver>(
    ctx: &ExecutionContext,
    resolver: &R,
    entity_types: Vec<Name>,
) -> (result: Result<(LiveSubscription, QueryResult), QueryExecutionError>)
    ensures
        match checked_execution(
            *ctx,
            *resolver,
            ValueView::Null,
            root_type_name(*ctx.operation),
            root_selection_set(*ctx.operation),
        ) {
            Ok(response) => (result matches Ok((subscription, first)) && first@ == response
                && subscription@ == (SubscriptionView {
                entity_types: entity_types@,
                last: Some(response),
                canceled: false,
            })),
            Err(e) => result == Err::<(LiveSubscription, QueryResult), _>(e),
        },
{
    match execute_operation(ctx, resolver) {
        Ok(first) => {
            let subscription = LiveSubscription::new(entity_types, &first);
            Ok((subscription, first))
        },
        Err(e) => Err(e),
    }
}

} // verus!
