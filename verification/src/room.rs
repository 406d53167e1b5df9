//! Per-board rooms and the process-wide room registry.
//!
//! A room binds one board to its live document, its broadcast bus and its
//! member set.  Members are keyed by principal id; each joiner is assigned
//! a color from a fixed eight-entry palette by the member count at the
//! moment of joining.  The registry maps board ids to rooms, creates them
//! on demand, and evicts a room exactly when its member set is empty.

use vstd::prelude::*;

use crate::bus::Bus;
use crate::doc::{doc_ops, doc_settled, elements_of, Document};

verus! {

/// One connected principal: stable id, display name, assigned color.
pub struct ConnectedUser {
    pub user_id: u128,
    pub username: String,
    pub color: String,
}

/// The fixed eight-color palette, by index.
pub open spec fn palette(k: int) -> Seq<char> {
    if k == 0 {
        "#F44336"@
    } else if k == 1 {
        "#2196F3"@
    } else if k == 2 {
        "#4CAF50"@
    } else if k == 3 {
        "#FF9800"@
    } else if k == 4 {
        "#9C27B0"@
    } else if k == 5 {
        "#00BCD4"@
    } else if k == 6 {
        "#E91E63"@
    } else {
        "#3F51B5"@
    }
}

/// The palette entry for the `k`-th joiner: entry `k mod 8`.
pub fn color_for(k: usize) -> (r: String)
    ensures
        r@ == palette((k % 8) as int),
{
    let m = k % 8;
    if m == 0 {
        "#F44336".to_owned()
    } else if m == 1 {
        "#2196F3".to_owned()
    } else if m == 2 {
        "#4CAF50".to_owned()
    } else if m == 3 {
        "#FF9800".to_owned()
    } else if m == 4 {
        "#9C27B0".to_owned()
    } else if m == 5 {
        "#00BCD4".to_owned()
    } else if m == 6 {
        "#E91E63".to_owned()
    } else {
        "#3F51B5".to_owned()
    }
}

/// One active board: its document, its bus, and who is connected.
pub struct Room {
    pub board_id: u128,
    pub doc: Document,
    pub bus: Bus,
    pub users: Vec<ConnectedUser>,
}

impl Room {
    /// The member list, in join order.
    pub open spec fn members(self) -> Seq<ConnectedUser> {
        self.users@
    }

    /// How many members are connected.
    pub open spec fn member_count(self) -> int {
        self.members().len() as int
    }

    /// Whether a principal is a member.
    pub open spec fn has_member(self, id: u128) -> bool {
        exists|i: int| 0 <= i < self.users@.len() && self.users@[i].user_id == id
    }

    /// The member record of a principal (meaningful when present).
    pub open spec fn member_at(self, id: u128) -> ConnectedUser {
        self.users@[choose|i: int| 0 <= i < self.users@.len() && self.users@[i].user_id == id]
    }

    /// Member ids are unique and the bus is sane.
    pub open spec fn wf(self) -> bool {
        &&& self.bus.wf()
        &&& forall|i: int, j: int|
            0 <= i < j < self.users@.len() ==> self.users@[i].user_id != self.users@[j].user_id
    }

    /// When an index holds a principal's id, it is the one `member_at`
    /// speaks of.
    proof fn lemma_member_at(self, id: u128, i: int)
        requires
            self.wf(),
            0 <= i < self.members().len(),
            self.members()[i].user_id == id,
        ensures
            self.has_member(id),
            self.member_at(id) == self.members()[i],
    {
        let j = choose|j: int| 0 <= j < self.users@.len() && self.users@[j].user_id == id;
        if i < j {
            assert(self.users@[i].user_id != self.users@[j].user_id);
        } else if j < i {
            assert(self.users@[j].user_id != self.users@[i].user_id);
        }
    }

    /// A fresh room for a board: empty document, empty member set, a bus
    /// of capacity 256.
    pub fn new(board_id: u128) -> (r: Room)
        ensures
            r.wf(),
            r.board_id == board_id,
            r.member_count() == 0,
            doc_ops(r.doc.inner) == Set::<int>::empty(),
            doc_settled(r.doc.inner),
            elements_of(doc_ops(r.doc.inner)) == Map::<Seq<char>, Seq<char>>::empty(),
            r.bus.frames() == Seq::<Seq<u8>>::empty(),
            r.bus.capacity() == 256,
    {
        Room { board_id, doc: Document::new(), bus: Bus::new(256), users: Vec::new() }
    }

    /// How many members are connected.
    pub fn user_count(&self) -> (n: usize)
        ensures
            n == self.member_count(),
    {
        self.users.len()
    }

    /// Insert (or refresh) a member.  The assigned color is drawn from the
    /// palette by the member count before insertion, taken modulo eight —
    /// so the `k`-th joiner of a room receives palette entry `k mod 8`.
    pub fn add_user(&mut self, user_id: u128, username: String) -> (color: String)
        requires
            old(self).wf(),
        ensures
            color@ == palette(old(self).member_count() % 8),
            final(self).wf(),
            final(self).board_id == old(self).board_id,
            final(self).doc == old(self).doc,
            final(self).bus == old(self).bus,
            final(self).has_member(user_id),
            final(self).member_at(user_id).user_id == user_id,
            final(self).member_at(user_id).username@ == username@,
            final(self).member_at(user_id).color@ == palette(old(self).member_count() % 8),
            final(self).member_count() == if old(self).has_member(user_id) {
                old(self).member_count()
            } else {
                old(self).member_count() + 1
            },
            forall|x: u128|
                x != user_id ==> final(self).has_member(x) == old(self).has_member(x),
            forall|x: u128|
                x != user_id && old(self).has_member(x) ==> final(self).member_at(x) == old(self).member_at(x),
    {
        let n = self.users.len();
        let color = color_for(n);
        proof {
            assert(n % 8 == (self.member_count() % 8) as usize) by {
                assert(self.member_count() == n as int);
            };
        }
        let assigned = color.clone();
        let entry = ConnectedUser { user_id, username, color };
        let mut i: usize = 0;
        while i < self.users.len()
            invariant
                i <= self.users@.len(),
                forall|j: int| 0 <= j < i ==> self.users@[j].user_id != user_id,
            ensures
                i <= self.users@.len(),
                forall|j: int| 0 <= j < i ==> self.users@[j].user_id != user_id,
                i < self.users@.len() ==> self.users@[i as int].user_id == user_id,
            decreases self.users@.len() - i,
        {
            if self.users[i].user_id == user_id {
                break;
            }
            i = i + 1;
        }
        let ghost pre = self.users@;
        if i < self.users.len() {
            proof {
                self.lemma_member_at(user_id, i as int);
            }
            self.users[i] = entry;
            proof {
                assert(forall|j: int|
                    0 <= j < pre.len() && j != i ==> self.users@[j] == pre[j]);
                self.lemma_member_at(user_id, i as int);
                assert forall|x: u128|
                    x != user_id && old(self).has_member(x) implies final(self).member_at(x)
                    == old(self).member_at(x) && final(self).has_member(x) by {
                    let j = choose|j: int| 0 <= j < pre.len() && pre[j].user_id == x;
                    assert(j != i);
                    old(self).lemma_member_at(x, j);
                    self.lemma_member_at(x, j);
                };
                assert forall|x: u128|
                    x != user_id && final(self).has_member(x) implies old(self).has_member(
                    x,
                ) by {
                    let j = choose|j: int|
                        0 <= j < self.users@.len() && self.users@[j].user_id == x;
                    assert(j != i);
                    old(self).lemma_member_at(x, j);
                };
            }
        } else {
            self.users.push(entry);
            proof {
                assert(forall|j: int| 0 <= j < pre.len() ==> self.users@[j] == pre[j]);
                assert(forall|j: int| 0 <= j < pre.len() ==> pre[j].user_id != user_id);
                self.lemma_member_at(user_id, pre.len() as int);
                if old(self).has_member(user_id) {
                    let j = choose|j: int| 0 <= j < pre.len() && pre[j].user_id == user_id;
                    assert(false);
                }
                assert forall|x: u128|
                    x != user_id && old(self).has_member(x) implies final(self).member_at(x)
                    == old(self).member_at(x) && final(self).has_member(x) by {
                    let j = choose|j: int| 0 <= j < pre.len() && pre[j].user_id == x;
                    old(self).lemma_member_at(x, j);
                    self.lemma_member_at(x, j);
                };
                assert forall|x: u128|
                    x != user_id && final(self).has_member(x) implies old(self).has_member(
                    x,
                ) by {
                    let j = choose|j: int|
                        0 <= j < self.users@.len() && self.users@[j].user_id == x;
                    assert(j < pre.len());
                    old(self).lemma_member_at(x, j);
                };
            }
        }
        assigned
    }

    /// Remove a member; nothing happens when the principal is absent.
    pub fn remove_user(&mut self, user_id: u128)
        requires
            old(self).wf(),
        ensures
            final(self).wf(),
            final(self).board_id == old(self).board_id,
            final(self).doc == old(self).doc,
            final(self).bus == old(self).bus,
            !final(self).has_member(user_id),
            final(self).member_count() == if old(self).has_member(user_id) {
                old(self).member_count() - 1
            } else {
                old(self).member_count()
            },
            forall|x: u128|
                x != user_id ==> final(self).has_member(x) == old(self).has_member(x),
            forall|x: u128|
                x != user_id && old(self).has_member(x) ==> final(self).member_at(x) == old(self).member_at(x),
    {
        let mut i: usize = 0;
        while i < self.users.len()
            invariant
                i <= self.users@.len(),
                forall|j: int| 0 <= j < i ==> self.users@[j].user_id != user_id,
            ensures
                i <= self.users@.len(),
                forall|j: int| 0 <= j < i ==> self.users@[j].user_id != user_id,
                i < self.users@.len() ==> self.users@[i as int].user_id == user_id,
            decreases self.users@.len() - i,
        {
            if self.users[i].user_id == user_id {
                break;
            }
            i = i + 1;
        }
        let ghost pre = self.users@;
        if i < self.users.len() {
            proof {
                old(self).lemma_member_at(user_id, i as int);
            }
            let _ = self.users.remove(i);
            proof {
                assert(forall|j: int| 0 <= j < i ==> self.users@[j] == pre[j]);
                assert(forall|j: int|
                    i <= j < self.users@.len() ==> self.users@[j] == pre[j + 1]);
                if final(self).has_member(user_id) {
                    let j = choose|j: int|
                        0 <= j < self.users@.len() && self.users@[j].user_id == user_id;
                    if j < i as int {
                        assert(pre[j].user_id == user_id);
                        assert(false);
                    } else {
                        assert(pre[j + 1].user_id == user_id);
                        assert(false);
                    }
                }
                assert forall|x: u128|
                    x != user_id && old(self).has_member(x) implies final(self).member_at(x)
                    == old(self).member_at(x) && final(self).has_member(x) by {
                    let j = choose|j: int| 0 <= j < pre.len() && pre[j].user_id == x;
                    old(self).lemma_member_at(x, j);
                    if j < i as int {
                        self.lemma_member_at(x, j);
                    } else {
                        assert(j != i);
                        assert(self.users@[j - 1] == pre[j]);
                        self.lemma_member_at(x, j - 1);
                    }
                };
                assert forall|x: u128|
                    x != user_id && final(self).has_member(x) implies old(self).has_member(
                    x,
                ) by {
                    let j = choose|j: int|
                        0 <= j < self.users@.len() && self.users@[j].user_id == x;
                    if j < i as int {
                        old(self).lemma_member_at(x, j);
                    } else {
                        old(self).lemma_member_at(x, j + 1);
                    }
                };
            }
        } else {
            proof {
                if old(self).has_member(user_id) {
                    let j = choose|j: int| 0 <= j < pre.len() && pre[j].user_id == user_id;
                    assert(false);
                }
            }
        }
    }

    /// A copy of the member list.
    pub fn get_users(&self) -> (r: Vec<ConnectedUser>)
        ensures
            r@.len() == self.members().len(),
            forall|i: int|
                0 <= i < r@.len() ==> r@[i].user_id == self.members()[i].user_id
                    && r@[i].username@ == self.members()[i].username@ && r@[i].color@ == self
                    .members()[i].color@,
    {
        let mut out: Vec<ConnectedUser> = Vec::new();
        let mut i: usize = 0;
        while i < self.users.len()
            invariant
                i <= self.users@.len(),
                out@.len() == i,
                forall|j: int|
                    0 <= j < i ==> out@[j].user_id == self.users@[j].user_id
                        && out@[j].username@ == self.users@[j].username@ && out@[j].color@
                        == self.users@[j].color@,
            decreases self.users@.len() - i,
        {
            let u = &self.users[i];
            out.push(
                ConnectedUser {
                    user_id: u.user_id,
                    username: u.username.clone(),
                    color: u.color.clone(),
                },
            );
            i = i + 1;
        }
        out
    }
}

/// The process-wide registry of active rooms, keyed by board id.
pub struct RoomManager {
    pub rooms: Vec<Room>,
}

impl RoomManager {
    /// The registered rooms, in creation order.
    pub open spec fn rooms_seq(self) -> Seq<Room> {
        self.rooms@
    }

    /// Whether a board currently has a room.
    pub open spec fn has_room(self, board_id: u128) -> bool {
        exists|i: int| 0 <= i < self.rooms@.len() && self.rooms@[i].board_id == board_id
    }

    /// The room of a board (meaningful when present).
    pub open spec fn room_of(self, board_id: u128) -> Room {
        self.rooms@[choose|i: int|
            0 <= i < self.rooms@.len() && self.rooms@[i].board_id == board_id]
    }

    /// Board ids are unique and every room is well formed.
    pub open spec fn wf(self) -> bool {
        &&& forall|i: int, j: int|
            0 <= i < j < self.rooms@.len() ==> self.rooms@[i].board_id != self.rooms@[j].board_id
        &&& forall|i: int| 0 <= i < self.rooms@.len() ==> (#[trigger] self.rooms@[i]).wf()
    }

    /// When an index holds a board's room, it is the one `room_of` speaks
    /// of.
    pub proof fn lemma_room_of(self, board_id: u128, i: int)
        requires
            self.wf(),
            0 <= i < self.rooms_seq().len(),
            self.rooms_seq()[i].board_id == board_id,
        ensures
            self.has_room(board_id),
            self.room_of(board_id) == self.rooms_seq()[i],
    {
        let j = choose|j: int| 0 <= j < self.rooms@.len() && self.rooms@[j].board_id == board_id;
        if i < j {
            assert(self.rooms@[i].board_id != self.rooms@[j].board_id);
        } else if j < i {
            assert(self.rooms@[j].board_id != self.rooms@[i].board_id);
        }
    }

    /// An empty registry.
    pub fn new() -> (r: RoomManager)
        ensures
            r.wf(),
            r.rooms_seq().len() == 0,
    {
        RoomManager { rooms: Vec::new() }
    }

    /// The index of a board's room, if present.
    pub fn get_room(&self, board_id: u128) -> (r: Option<usize>)
        requires
            self.wf(),
        ensures
            r is Some <==> self.has_room(board_id),
            r matches Some(i) ==> i < self.rooms_seq().len() && self.rooms_seq()[i as int]
                == self.room_of(board_id) && self.rooms_seq()[i as int].board_id == board_id,
    {
        let mut i: usize = 0;
        while i < self.rooms.len()
            invariant
                self.wf(),
                i <= self.rooms@.len(),
                forall|j: int| 0 <= j < i ==> self.rooms@[j].board_id != board_id,
            decreases self.rooms@.len() - i,
        {
            if self.rooms[i].board_id == board_id {
                proof {
                    self.lemma_room_of(board_id, i as int);
                }
                return Some(i);
            }
            i = i + 1;
        }
        proof {
            if self.has_room(board_id) {
                let j = choose|j: int|
                    0 <= j < self.rooms@.len() && self.rooms@[j].board_id == board_id;
                assert(false);
            }
        }
        None
    }

    /// The index of the board's room, creating a fresh one when absent.
    /// Callers for the same board always land on the same room.
    pub fn get_or_create_room(&mut self, board_id: u128) -> (i: usize)
        requires
            old(self).wf(),
        ensures
            final(self).wf(),
            final(self).has_room(board_id),
            i < final(self).rooms_seq().len(),
            final(self).rooms_seq()[i as int] == final(self).room_of(board_id),
            final(self).rooms_seq()[i as int].board_id == board_id,
            old(self).has_room(board_id) ==> *final(self) == *old(self) && final(self).room_of(
                board_id,
            ) == old(self).room_of(board_id),
            !old(self).has_room(board_id) ==> final(self).rooms_seq() == old(self).rooms_seq()
                .push(final(self).rooms_seq()[i as int]) && final(self).room_of(
                board_id,
            ).member_count() == 0 && doc_ops(final(self).room_of(board_id).doc.inner)
                == Set::<int>::empty() && doc_settled(final(self).room_of(board_id).doc.inner),
    {
        match self.get_room(board_id) {
            Some(i) => i,
            None => {
                let r = Room::new(board_id);
                let i = self.rooms.len();
                let ghost pre = self.rooms@;
                self.rooms.push(r);
                proof {
                    assert(forall|j: int| 0 <= j < pre.len() ==> self.rooms@[j] == pre[j]);
                    assert(forall|j: int| 0 <= j < pre.len() ==> pre[j].board_id != board_id);
                    assert(final(self).wf()) by {
                        assert forall|a: int, b: int|
                            0 <= a < b < self.rooms@.len() implies self.rooms@[a].board_id
                            != self.rooms@[b].board_id by {
                            if b == pre.len() as int {
                                assert(self.rooms@[a] == pre[a]);
                                assert(self.rooms@[b] == r);
                            } else {
                                assert(self.rooms@[a] == pre[a]);
                                assert(self.rooms@[b] == pre[b]);
                            }
                        };
                        assert forall|a: int|
                            0 <= a < self.rooms@.len() implies (#[trigger] self.rooms@[a]).wf()
                            by {
                            if a == pre.len() as int {
                                assert(self.rooms@[a] == r);
                            } else {
                                assert(self.rooms@[a] == pre[a]);
                                assert(old(self).rooms@[a].wf());
                            }
                        };
                    };
                    self.lemma_room_of(board_id, i as int);
                }
                i
            },
        }
    }

    /// Evict a board's room exactly when it exists and has no members.
    pub fn remove_room_if_empty(&mut self, board_id: u128)
        requires
            old(self).wf(),
        ensures
            final(self).wf(),
            final(self).has_room(board_id) <==> old(self).has_room(board_id) && old(self).room_of(board_id).member_count() != 0,
            old(self).has_room(board_id) && old(self).room_of(board_id).member_count() != 0
                ==> *final(self) == *old(self),
            !old(self).has_room(board_id) ==> *final(self) == *old(self),
            forall|b: u128|
                b != board_id ==> final(self).has_room(b) == old(self).has_room(b),
            forall|b: u128|
                b != board_id && old(self).has_room(b) ==> final(self).room_of(b) == old(self).room_of(b),
    {
        let found = self.get_room(board_id);
        match found {
            None => {},
            Some(i) => {
                if self.rooms[i].user_count() == 0 {
                    let ghost pre = self.rooms@;
                    let _ = self.rooms.remove(i);
                    proof {
                        assert(forall|j: int| 0 <= j < i ==> self.rooms@[j] == pre[j]);
                        assert(forall|j: int|
                            i <= j < self.rooms@.len() ==> self.rooms@[j] == pre[j + 1]);
                        if final(self).has_room(board_id) {
                            let j = choose|j: int|
                                0 <= j < self.rooms@.len() && self.rooms@[j].board_id
                                    == board_id;
                            if j < i as int {
                                assert(pre[j].board_id == board_id);
                                old(self).lemma_room_of(board_id, j);
                                assert(false);
                            } else {
                                assert(pre[j + 1].board_id == board_id);
                                old(self).lemma_room_of(board_id, j + 1);
                                assert(false);
                            }
                        }
                        assert forall|b: u128|
                            b != board_id && old(self).has_room(b) implies final(self).has_room(b) && final(self).room_of(b) == old(self).room_of(b) by {
                            let j = choose|j: int|
                                0 <= j < pre.len() && pre[j].board_id == b;
                            old(self).lemma_room_of(b, j);
                            if j < i as int {
                                self.lemma_room_of(b, j);
                            } else {
                                assert(j != i);
                                assert(self.rooms@[j - 1] == pre[j]);
                                self.lemma_room_of(b, j - 1);
                            }
                        };
                        assert forall|b: u128|
                            b != board_id && final(self).has_room(b) implies old(self).has_room(b) by {
                            let j = choose|j: int|
                                0 <= j < self.rooms@.len() && self.rooms@[j].board_id == b;
                            if j < i as int {
                                old(self).lemma_room_of(b, j);
                            } else {
                                old(self).lemma_room_of(b, j + 1);
                            }
                        };
                    }
                }
            },
        }
    }
}

} // verus!
