//! The command and query handlers over a repository: creation derives the
//! events, replays them into the new state, wraps them in envelopes, and
//! persists them at the first generation; lookup loads by identity.
//!
//! The fresh event identifier and the current time are collaborators of the
//! handler: the caller passes them in, which keeps every run deterministic.

use vstd::prelude::*;

use crate::domain::{
    spec_hydrate_from, views_of, Aggregate, DomainEvent, DomainEventId, DomainEventModel,
    Generation,
};
use crate::project::{
    Project, ProjectError, ProjectEvent, ProjectEventModel, ProjectId, ProjectModel,
};
use crate::repository::{EnvelopeModel, Repository, RepositoryError};
use crate::time::Timestamp;

verus! {

/// The command: create a project with a fresh identity and a name.
pub struct CreateProject {
    pub id: u128,
    pub name: String,
}

#[derive(Debug, PartialEq, Eq)]
pub enum CreateProjectHandlerError {
    ProjectError(ProjectError),
    RepositoryError(RepositoryError),
}

/// The envelope a creation command is persisted under.
pub open spec fn creation_envelope(id: u128, name: Seq<char>, event_id: u128, now: Seq<char>)
    -> EnvelopeModel {
    DomainEventModel {
        id: event_id,
        aggregate_id: id,
        created_at: now,
        event: ProjectEventModel::Created { id, name },
    }
}

/// Handles creation commands against a repository it owns.
pub struct CreateProjectHandler<R: Repository<Aggregate = Project, Err = RepositoryError>> {
    pub repository: R,
}

impl<R: Repository<Aggregate = Project, Err = RepositoryError>> CreateProjectHandler<R> {
    /// Derives the creation events, replays them into the new project, and
    /// persists them at the first generation under the given envelope
    /// identity and timestamp. Returns the hydrated project; a storage
    /// refusal comes back as the repository's error.
    pub fn handle(
        &mut self,
        command: CreateProject,
        event_id: DomainEventId,
        now: Timestamp,
    ) -> (r: Result<Project, CreateProjectHandlerError>)
        requires
            old(self).repository.persist_pre(
                0,
                seq![creation_envelope(command.id, command.name@, event_id@, now@)],
            ),
        ensures
            match r {
                Ok(p) => {
                    &&& p@ == (ProjectModel { id: command.id, generation: 0, name: command.name@
                    })
                    &&& R::persist_post(
                        old(self).repository,
                        final (self).repository,
                        0,
                        seq![creation_envelope(command.id, command.name@, event_id@, now@)],
                        Ok(()),
                    )
                },
                Err(CreateProjectHandlerError::RepositoryError(e)) => R::persist_post(
                    old(self).repository,
                    final (self).repository,
                    0,
                    seq![creation_envelope(command.id, command.name@, event_id@, now@)],
                    Err(e),
                ),
                Err(CreateProjectHandlerError::ProjectError(_)) => false,
            },
    {
        let ghost cname = command.name@;
        let ghost env = creation_envelope(command.id, cname, event_id@, now@);
        let ghost pm = ProjectModel { id: command.id, generation: 0, name: cname };
        let project_id = ProjectId::new(command.id);
        let mut events = match Project::create(project_id, command.name) {
            Ok(evs) => evs,
            Err(pe) => {
                proof {
                    assert(false);
                }
                return Err(CreateProjectHandlerError::ProjectError(pe));
            },
        };
        proof {
            let evs = views_of(events@);
            assert(evs =~= seq![events@[0]@]);
            assert(events@[0]@ == (ProjectEventModel::Created { id: command.id, name: cname }));
            assert(Project::spec_apply(None, evs[0]) == Ok::<ProjectModel, ProjectError>(pm));
            assert(evs.drop_first() =~= Seq::<ProjectEventModel>::empty());
            assert(spec_hydrate_from::<Project>(Some(pm), evs.drop_first()) == Ok::<
                Option<ProjectModel>,
                ProjectError,
            >(Some(pm)));
            assert(spec_hydrate_from::<Project>(None, evs) == Ok::<
                Option<ProjectModel>,
                ProjectError,
            >(Some(pm)));
        }
        let project = match Project::hydrate(events.as_slice()) {
            Ok(Some(p)) => p,
            _ => {
                proof {
                    assert(false);
                }
                return Err(CreateProjectHandlerError::ProjectError(
                    ProjectError::InvalidStateEvent,
                ));
            },
        };
        let event = match events.pop() {
            Some(ev) => ev,
            None => {
                proof {
                    assert(false);
                }
                return Err(CreateProjectHandlerError::ProjectError(
                    ProjectError::InvalidStateEvent,
                ));
            },
        };
        let envelopes = vec![
            DomainEvent::<Project> {
                id: event_id,
                aggregate_id: project_id,
                created_at: now,
                event,
            },
        ];
        proof {
            assert(views_of(envelopes@) =~= seq![env]);
        }
        let pr = self.repository.persist(Generation::first(), envelopes.as_slice());
        match pr {
            Ok(u) => {
                proof {
                    assert(pr == Ok::<(), RepositoryError>(()));
                }
                Ok(project)
            },
            Err(e) => Err(CreateProjectHandlerError::RepositoryError(e)),
        }
    }
}

/// The query: look one project up by its identity.
pub struct ListProject {
    pub id: ProjectId,
}

#[derive(Debug, PartialEq, Eq)]
pub enum ListProjectHandlerError {
    RepositoryError(RepositoryError),
}

/// Handles lookup queries against a repository it owns.
pub struct ListProjectHandler<R: Repository<Aggregate = Project, Err = RepositoryError>> {
    pub repository: R,
}

impl<R: Repository<Aggregate = Project, Err = RepositoryError>> ListProjectHandler<R> {
    /// Loads the project by identity; every failure comes back as the
    /// repository's error.
    pub fn handle(&self, command: ListProject) -> (r: Result<Project, ListProjectHandlerError>)
        ensures
            match r {
                Ok(p) => self.repository.get_post(command.id@, Ok(p)),
                Err(ListProjectHandlerError::RepositoryError(e)) => self.repository.get_post(
                    command.id@,
                    Err(e),
                ),
            },
    {
        match self.repository.get(command.id) {
            Ok(p) => Ok(p),
            Err(e) => Err(ListProjectHandlerError::RepositoryError(e)),
        }
    }
}

} // verus!
