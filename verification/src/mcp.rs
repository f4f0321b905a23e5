//! Transport-neutral MCP client adapter.
//!
//! An [`McpClient`] exposes only the shared scoped Designer channel. The
//! host supplies the MCP actor identity and scope; every request it forwards
//! is attributed to that actor, whatever actor metadata a wire client sent.
use vstd::prelude::*;

use crate::access::{
    DesignerScope, ScopeDenied, ScopedDesignerSession, batch_denial, batch_permitted, history_denial, history_permitted,
    query_denial, query_permitted, same_project,
};
use crate::command::CommandBatch;
use crate::ids::ProjectId;
use crate::model::{Actor, ActorKind, StudioDesignSnapshot};
use crate::session::{DesignerQuery, HistoryOperation, HistorySnapshot};

verus! {

/// Failure while opening a transport-neutral MCP client.
#[derive(Debug, PartialEq, Eq)]
pub enum McpClientError {
    /// The host must attribute MCP operations to an MCP actor.
    ActorKindRequired,
    /// A scope may not be attached to a different project than the session.
    ProjectMismatch { scope_project: ProjectId, session_project: ProjectId },
}

/// An MCP caller connected to one explicitly scoped Designer session.
pub struct McpClient<S> {
    access: ScopedDesignerSession<S>,
    actor: Actor,
}

impl<S> McpClient<S> {
    /// The host-attributed actor.
    pub closed spec fn actor_view(&self) -> Actor {
        self.actor
    }

    /// The attached scope.
    pub closed spec fn scope_of(&self) -> DesignerScope {
        self.access.scope_view()
    }

    /// The wrapped session.
    pub closed spec fn session_of(&self) -> S {
        self.access.inner()
    }

    /// Connect an MCP actor to one project-bound scope, given the project of
    /// the session's current snapshot: the actor must be an MCP actor and the
    /// scope must target the session's project.
    pub fn connect(session: S, session_project: ProjectId, scope: DesignerScope, actor: Actor) -> (r: Result<Self, McpClientError>)
        ensures
            actor.kind != ActorKind::Mcp ==> r == Err::<Self, McpClientError>(McpClientError::ActorKindRequired),
            actor.kind == ActorKind::Mcp && session_project@ != scope.project() ==> (r matches Err(McpClientError::ProjectMismatch { scope_project, session_project: sp })
                && scope_project@ == scope.project() && sp == session_project),
            actor.kind == ActorKind::Mcp && session_project@ == scope.project() ==> (r matches Ok(c) && c.actor_view() == actor
                && c.scope_of() == scope && c.session_of() == session),
    {
        if actor.kind != ActorKind::Mcp {
            return Err(McpClientError::ActorKindRequired);
        }
        if !session_project.same(scope.project_id()) {
            let scope_project = scope.project_id().copy();
            return Err(McpClientError::ProjectMismatch { scope_project, session_project });
        }
        Ok(McpClient { access: ScopedDesignerSession::new(session, scope), actor })
    }

    /// The host-attributed MCP actor identity recorded in receipts.
    pub fn actor(&self) -> (r: &Actor)
        ensures
            *r == self.actor_view(),
    {
        &self.actor
    }

    /// The immutable project scope attached to this client.
    pub fn scope(&self) -> (r: &DesignerScope)
        ensures
            *r == self.scope_of(),
    {
        self.access.scope()
    }

    /// Borrow the wrapped session, to read its snapshot and history.
    pub fn session(&self) -> (r: &S)
        ensures
            *r == self.session_of(),
    {
        self.access.session()
    }

    /// Mutably borrow the wrapped session, to hand it an admitted request.
    pub fn session_mut(&mut self) -> (r: &mut S)
        ensures
            *r == old(self).session_of(),
            final(self).session_of() == *final(r),
            final(self).scope_of() == old(self).scope_of(),
            final(self).actor_view() == old(self).actor_view(),
    {
        self.access.session_mut()
    }

    /// Decide a query: admitted when the scope permits it, else the denial.
    pub fn query(&self, snapshot: &StudioDesignSnapshot, query: &DesignerQuery) -> (r: Result<(), ScopeDenied>)
        ensures
            r is Ok <==> same_project(&self.scope_of(), snapshot) && query_permitted(&self.scope_of(), &snapshot.design, *query),
            r matches Err(d) ==> query_denial(&self.scope_of(), snapshot, *query, d),
    {
        self.access.query_check(snapshot, query)
    }

    /// Decide a batch submission: when the scope admits it, the batch to hand
    /// to the session, attributed to the MCP actor whatever actor the caller
    /// sent; otherwise the denial.
    pub fn submit(&self, snapshot: &StudioDesignSnapshot, batch: CommandBatch) -> (r: Result<CommandBatch, ScopeDenied>)
        ensures
            r is Ok <==> batch_permitted(&self.scope_of(), snapshot, batch),
            r matches Ok(b) ==> b == (CommandBatch { actor: self.actor_view(), ..batch }),
            r matches Err(d) ==> batch_denial(&self.scope_of(), snapshot, batch, d),
    {
        match self.access.batch_check(snapshot, &batch) {
            Ok(()) => Ok(CommandBatch { actor: self.actor.copy(), ..batch }),
            Err(d) => Err(d),
        }
    }

    /// Decide an undo of the current admitted undo group: when the scope
    /// admits it, the operation to hand to the session's undo, attributed to
    /// the MCP actor whatever actor the caller sent; otherwise the denial.
    pub fn undo(&self, snapshot: &StudioDesignSnapshot, history: &HistorySnapshot, operation: HistoryOperation) -> (r: Result<HistoryOperation, ScopeDenied>)
        ensures
            r is Ok <==> history_permitted(&self.scope_of(), snapshot, history, false),
            r matches Ok(req) ==> req == (HistoryOperation {
                operation_id: operation.operation_id,
                actor: self.actor_view(),
                base_revision: operation.base_revision,
            }),
            r matches Err(d) ==> history_denial(&self.scope_of(), snapshot, operation, false, d),
    {
        match self.access.history_check(snapshot, history, &operation, false) {
            Ok(()) => Ok(HistoryOperation { actor: self.actor.copy(), ..operation }),
            Err(d) => Err(d),
        }
    }

    /// Decide a redo of the next admitted undo group: when the scope admits
    /// it, the operation to hand to the session's redo, attributed to the MCP
    /// actor whatever actor the caller sent; otherwise the denial.
    pub fn redo(&self, snapshot: &StudioDesignSnapshot, history: &HistorySnapshot, operation: HistoryOperation) -> (r: Result<HistoryOperation, ScopeDenied>)
        ensures
            r is Ok <==> history_permitted(&self.scope_of(), snapshot, history, true),
            r matches Ok(req) ==> req == (HistoryOperation {
                operation_id: operation.operation_id,
                actor: self.actor_view(),
                base_revision: operation.base_revision,
            }),
            r matches Err(d) ==> history_denial(&self.scope_of(), snapshot, operation, true, d),
    {
        match self.access.history_check(snapshot, history, &operation, true) {
            Ok(()) => Ok(HistoryOperation { actor: self.actor.copy(), ..operation }),
            Err(d) => Err(d),
        }
    }
}

} // verus!
