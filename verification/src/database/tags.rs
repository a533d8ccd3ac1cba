//! Creating, listing, changing and deleting tags.

use super::Database;
use crate::error::DbError;
use crate::invariants::{lemma_create_tag, lemma_delete_tag, lemma_update_tag};
use crate::model::patched_tag;
use crate::models::{CreateTagRequest, Tag, UpdateTagRequest};
use crate::query::positions_by_name;
use crate::rows::{copy_tag, links_without_name};
use crate::text::same_text;
use vstd::prelude::*;

verus! {

impl Database {
    /// Creates a tag at `now` under the next id and gives it as stored.
    ///
    /// Fails with `Conflict` where a tag of that name exists, and with
    /// `StorageUnavailable` where the tag counter is exhausted; the store
    /// is then unchanged.
    pub fn create_tag(&mut self, request: CreateTagRequest, now: i64) -> (r: Result<Tag, DbError>)
        requires
            old(self).wf(),
        ensures
            final(self).wf(),
            match r {
                Ok(tag) => {
                    &&& old(self)@.create_tag_error(request.name@) is None
                    &&& final(self)@ == old(self)@.create_tag_state(
                        request.name@,
                        request.color@,
                        now,
                    )
                    &&& tag@ == old(self)@.new_tag(request.name@, request.color@, now)
                    &&& tag@.id matches Some(id) && final(self)@.has_tag(id) && final(self)@.tag(id)
                        == tag@
                },
                Err(e) => old(self)@.create_tag_error(request.name@) == Some(e) && final(self)@
                    == old(self)@,
            },
    {
        let ghost start = self@;
        if self.has_tag_named(request.name.as_str()) {
            return Err(DbError::Conflict);
        }
        if self.last_tag_id == i64::MAX {
            return Err(DbError::StorageUnavailable);
        }
        let CreateTagRequest { name, color } = request;
        let tag = Tag { id: Some(self.last_tag_id + 1), name, color, created_at: now };
        let stored = copy_tag(&tag);
        let ghost before = self.tags.deep_view();
        self.last_tag_id = self.last_tag_id + 1;
        self.tags.push(stored);
        proof {
            assert(self.tags.deep_view() =~= before.push(tag@));
            lemma_create_tag(start, tag@.name, tag@.color, now);
        }
        Ok(tag)
    }

    /// Every tag, by ascending name.
    pub fn get_all_tags(&self) -> (r: Result<Vec<Tag>, DbError>)
        requires
            self.wf(),
        ensures
            r matches Ok(tags) && self@.lists_tags(tags.deep_view()),
    {
        proof {
            assert forall|i: int, j: int| 0 <= i < j < self.tags.len() implies (
            #[trigger] self.tags@[i]).name@ != (#[trigger] self.tags@[j]).name@ by {
                assert(self@.tags[i] == self.tags@[i]@);
                assert(self@.tags[j] == self.tags@[j]@);
            }
        }
        let positions = positions_by_name(&self.tags);
        let mut out: Vec<Tag> = Vec::new();
        let mut k: usize = 0;
        while k < positions.len()
            invariant
                k <= positions.len(),
                out.len() == k,
                forall|j: int|
                    0 <= j < positions.len() ==> (#[trigger] positions@[j]) < self.tags.len(),
                forall|j: int|
                    0 <= j < k ==> (#[trigger] out@[j])@ == self.tags@[positions@[j] as int]@,
            decreases positions.len() - k,
        {
            out.push(copy_tag(&self.tags[positions[k]]));
            k = k + 1;
        }
        proof {
            let result = out.deep_view();
            let db = self@;
            assert forall|k: int| 0 <= k < result.len() implies (#[trigger] result[k])
                == db.tags[positions@[k] as int] by {
                assert(result[k] == out@[k]@);
            }
            assert forall|k: int| 0 <= k < result.len() implies db.tags.contains(
                #[trigger] result[k],
            ) by {
                assert(db.tags[positions@[k] as int] == result[k]);
            }
            assert forall|i: int| 0 <= i < db.tags.len() implies result.contains(
                #[trigger] db.tags[i],
            ) by {
                assert(positions@.contains(i as usize));
                let k = choose|k: int| 0 <= k < positions@.len() && positions@[k] == i as usize;
                assert(result[k] == db.tags[i]);
            }
        }
        Ok(out)
    }

    /// Applies a partial change to a tag and gives the tag as stored
    /// afterwards: a name or a colour that the request holds replaces the
    /// stored one.
    ///
    /// Fails with `InvalidRequest` where the request holds neither, with
    /// `NotFound` where the tag is not stored, and with `Conflict` where
    /// the tag would take the name of another tag, or change its name
    /// while a task carries it; the store is then unchanged.
    pub fn update_tag(&mut self, request: UpdateTagRequest) -> (r: Result<Tag, DbError>)
        requires
            old(self).wf(),
        ensures
            final(self).wf(),
            match r {
                Ok(tag) => {
                    &&& old(self)@.update_tag_error(
                        request.id,
                        request.name.deep_view(),
                        request.color.deep_view(),
                    ) is None
                    &&& final(self)@ == old(self)@.update_tag_state(
                        request.id,
                        request.name.deep_view(),
                        request.color.deep_view(),
                    )
                    &&& tag@ == patched_tag(
                        old(self)@.tag(request.id),
                        request.name.deep_view(),
                        request.color.deep_view(),
                    )
                    &&& final(self)@.has_tag(request.id)
                    &&& final(self)@.tag(request.id) == tag@
                },
                Err(e) => old(self)@.update_tag_error(
                    request.id,
                    request.name.deep_view(),
                    request.color.deep_view(),
                ) == Some(e) && final(self)@ == old(self)@,
            },
    {
        let ghost start = self@;
        let ghost new_name = request.name.deep_view();
        let ghost new_color = request.color.deep_view();
        let UpdateTagRequest { id, name, color } = request;
        if name.is_none() && color.is_none() {
            return Err(DbError::InvalidRequest);
        }
        let at = match self.tag_index(id) {
            None => {
                return Err(DbError::NotFound);
            },
            Some(at) => at,
        };
        match &name {
            Some(wanted) => {
                if !same_text(wanted.as_str(), self.tags[at].name.as_str()) {
                    if self.has_tag_named(wanted.as_str()) || self.is_tag_in_use(
                        self.tags[at].name.as_str(),
                    ) {
                        return Err(DbError::Conflict);
                    }
                }
            },
            None => {},
        }
        let stored = &self.tags[at];
        let tag = Tag {
            id: stored.id,
            name: match name {
                Some(text) => text,
                None => stored.name.clone(),
            },
            color: match color {
                Some(text) => text,
                None => stored.color.clone(),
            },
            created_at: stored.created_at,
        };
        let ghost patched = patched_tag(start.tag(id), new_name, new_color);
        assert(tag@ == patched);
        let ghost before = self.tags.deep_view();
        self.tags.set(at, copy_tag(&tag));
        proof {
            assert(self.tags.deep_view() =~= before.update(at as int, patched));
            assert(self@ == start.with_tag_at(at as int, patched));
            lemma_update_tag(start, id, new_name, new_color);
        }
        Ok(tag)
    }

    /// Deletes the tag with this id together with the associations that
    /// name it. Where no such tag is stored, nothing changes.
    pub fn delete_tag(&mut self, tag_id: i64) -> (r: Result<(), DbError>)
        requires
            old(self).wf(),
        ensures
            final(self).wf(),
            r is Ok,
            final(self)@ == old(self)@.delete_tag_state(tag_id),
            !final(self)@.has_tag(tag_id),
    {
        proof {
            lemma_delete_tag(self@, tag_id);
        }
        match self.tag_index(tag_id) {
            None => {},
            Some(at) => {
                let ghost before = self.tags.deep_view();
                let links = links_without_name(&self.task_tags, self.tags[at].name.as_str());
                self.tags.remove(at);
                assert(self.tags.deep_view() =~= before.remove(at as int));
                self.task_tags = links;
            },
        }
        Ok(())
    }
}

} // verus!
