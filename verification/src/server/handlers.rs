use rand::distributions::{Distribution, WeightedIndex};
use rand::thread_rng;
use vstd::prelude::*;

use super::clients::{entities_with, entities_wf, Client, ClientView};
use super::entities::Entity;
use super::{
    claims_apart,
    claims_hold,
    holds_shield,
    lemma_shield_holder_counted,
    lemma_shield_holders_bound,
    lemma_shield_holders_update,
    SoaprunServer,
};
use crate::soaprun::soaprunners::{
    client_spawn_position, client_spawn_room, Soaprunner, SoaprunnerColors, SoaprunnerItems,
    SoaprunnerSprites, SoaprunnerView,
};
use crate::soaprun::units::{UnitStates, UnitTypes};

verus! {

/// How likely each color is for a new player, in the order of the colors.
pub const COLOR_WEIGHTS: [u32; 4] = [1, 1, 1, 1];

/// How far from an entity a player may stand and still collide with it.
pub const COLLISION_REACH: usize = 15;

/// The milliseconds for which a slain Closer, Wuss or Chase lies dead.
pub const SLAIN_DELAY: usize = 5000;

/// The milliseconds for which a slain Crawl lies dead.
pub const SLAIN_CRAWL_DELAY: usize = 10000;

/// An index into `weights`, drawn at random with the likelihood that its
/// weight gives it, or nothing where every weight is zero. Wraps
/// `WeightedIndex::new` and `Distribution::sample` of rand with the
/// generator of the thread: the first fails only where the weights sum up to
/// zero, the second gives an index below the number of weights.
#[verifier::external_body]
fn sample_weighted(weights: &[u32; 4]) -> (r: Option<usize>)
    requires
        weights@[0] + weights@[1] + weights@[2] + weights@[3] <= u32::MAX,
    ensures
        r is Some <==> weights@[0] + weights@[1] + weights@[2] + weights@[3] > 0,
        r is Some ==> r.unwrap() < 4,
{
    match WeightedIndex::new(weights) {
        Ok(dist) => Some(dist.sample(&mut thread_rng())),
        Err(_) => None,
    }
}

/// The color that stands at `index` in the order of the colors.
pub open spec fn spec_color_at(index: usize) -> SoaprunnerColors {
    if index == 0 {
        SoaprunnerColors::Green
    } else if index == 1 {
        SoaprunnerColors::Pink
    } else if index == 2 {
        SoaprunnerColors::Blue
    } else {
        SoaprunnerColors::Yellow
    }
}

/// The color that stands at `index` in the order of the colors.
pub fn color_at(index: usize) -> (r: SoaprunnerColors)
    ensures
        r == spec_color_at(index),
{
    if index == 0 {
        SoaprunnerColors::Green
    } else if index == 1 {
        SoaprunnerColors::Pink
    } else if index == 2 {
        SoaprunnerColors::Blue
    } else {
        SoaprunnerColors::Yellow
    }
}

/// A player who has just connected under `number`, in the given color.
pub open spec fn fresh_client(number: usize, color: SoaprunnerColors) -> ClientView {
    ClientView {
        number,
        has_moved: false,
        has_made_corpse: false,
        kills: 0,
        claimed_sword: None,
        claimed_shield: None,
        room: seq![client_spawn_room()],
        soaprunner: SoaprunnerView {
            teleport_trigger: 0,
            sprite: SoaprunnerSprites::Walking,
            color,
            items: SoaprunnerItems { sword: false, crown: false, shield: false },
            movements: seq![client_spawn_position()],
        },
        cached_tiles: Seq::empty(),
    }
}

/// What a collision does.
pub enum Collision {
    /// Nothing.
    Nothing,
    /// The player has reached the goal.
    Wins,
    /// The player dies.
    PlayerDies,
    /// The player dies, and the entity counts the kill.
    EntityKills,
    /// The player slays the entity, which lies dead for as many milliseconds.
    PlayerSlays { delay: usize },
    /// The player takes the sword.
    ClaimsSword,
    /// The player takes the shield.
    ClaimsShield,
}

impl SoaprunServer {
    /// Whether a player stands under `num`.
    pub open spec fn has_player(&self, num: usize) -> bool {
        num < self.players@.len() && self.players@[num as int] is Some
    }

    /// The player under `num`.
    pub open spec fn player(&self, num: usize) -> ClientView {
        self.players@[num as int].unwrap()@
    }

    /// Whether this world is `before` but for the player under `num`, the
    /// entities and the count of the players with a shield.
    pub open spec fn same_but_player(&self, before: &SoaprunServer, num: usize) -> bool {
        &&& self.map == before.map
        &&& self.entity_update_rate == before.entity_update_rate
        &&& self.connection_timeout == before.connection_timeout
        &&& self.idle_timeout == before.idle_timeout
        &&& self.limits == before.limits
        &&& self.players@.len() == before.players@.len()
        &&& forall|n: int|
            0 <= n < before.players@.len() && n != num ==> #[trigger] self.players@[n]
                == before.players@[n]
    }

    /// The color of a new player, drawn at random.
    fn get_player_color(&self) -> SoaprunnerColors {
        match sample_weighted(&COLOR_WEIGHTS) {
            Some(index) => color_at(index),
            None => SoaprunnerColors::Green,
        }
    }

    /// Lets a player of the given color in, under the smallest free number,
    /// and gives that number; or fails where the world is full.
    #[verifier::loop_isolation(false)]
    pub fn add_player(&mut self, color: SoaprunnerColors) -> (r: Result<usize, ()>)
        requires
            old(self).wf(),
        ensures
            final(self).wf(),
            final(self).same_but_player(
                old(self),
                match r {
                    Ok(num) => num,
                    Err(_) => 0,
                },
            ),
            final(self).entities@ == old(self).entities@,
            final(self).players_with_shield == old(self).players_with_shield,
            match r {
                Ok(num) => {
                    &&& num < old(self).players@.len()
                    &&& old(self).players@[num as int] is None
                    &&& forall|m: int| 0 <= m < num ==> old(self).players@[m] is Some
                    &&& final(self).has_player(num)
                    &&& final(self).player(num) == fresh_client(num, color)
                },
                Err(_) => {
                    &&& forall|m: int| 0 <= m < old(self).players@.len() ==> old(self).players@[m] is Some
                    &&& final(self).players@ == old(self).players@
                },
            },
    {
        let mut n: usize = 0;
        while n < self.players.len()
            invariant
                n <= self.players.len(),
                *self == *old(self),
                forall|m: int| 0 <= m < n ==> self.players@[m] is Some,
            decreases self.players.len() - n,
        {
            if self.players[n].is_none() {
                let ghost before = self.players@;
                self.players[n] = Some(Client::new(n, color));
                proof {
                    assert(forall|j: int| 0 <= j < before.len() && j != n ==> self.players@[j] == before[j]);
                    lemma_shield_holders_update(before, self.players@, n as int);
                    assert forall|j: int| 0 <= j < self.players@.len() implies (
                    #[trigger] self.players@[j] matches Some(c) ==> {
                        &&& c.wf()
                        &&& c.number == j
                        &&& claims_hold(c@, self.entities@)
                    }) by {
                        if j != n {
                            assert(self.players@[j] == before[j]);
                        }
                    }
                    assert forall|j: int, m: int| 0 <= j < m < self.players@.len() implies (
                    #[trigger] self.players@[j] matches Some(a) ==> (
                    #[trigger] self.players@[m] matches Some(b) ==> claims_apart(a@, b@))) by {
                        if j != n && m != n {
                            assert(self.players@[j] == before[j]);
                            assert(self.players@[m] == before[m]);
                        }
                    }
                }
                return Ok(n);
            }
            n = n + 1;
        }
        Err(())
    }

    /// Lets a player in, in a color drawn at random, under the smallest
    /// free number, and gives that number; or fails where the world is full.
    pub fn borrow_player(&mut self) -> (r: Result<usize, ()>)
        requires
            old(self).wf(),
        ensures
            final(self).wf(),
            final(self).same_but_player(
                old(self),
                match r {
                    Ok(num) => num,
                    Err(_) => 0,
                },
            ),
            final(self).entities@ == old(self).entities@,
            final(self).players_with_shield == old(self).players_with_shield,
            match r {
                Ok(num) => {
                    &&& num < old(self).players@.len()
                    &&& old(self).players@[num as int] is None
                    &&& forall|m: int| 0 <= m < num ==> old(self).players@[m] is Some
                    &&& final(self).has_player(num)
                    &&& final(self).player(num) == fresh_client(
                        num,
                        final(self).player(num).soaprunner.color,
                    )
                },
                Err(_) => {
                    &&& forall|m: int| 0 <= m < old(self).players@.len() ==> old(self).players@[m] is Some
                    &&& final(self).players@ == old(self).players@
                },
            },
    {
        let color = self.get_player_color();
        self.add_player(color)
    }
}


/// Whether a player other than the one under `num` holds the entity `index`.
pub open spec fn claimed_by_other(players: Seq<Option<Client>>, num: int, index: usize) -> bool {
    exists|n: int|
        0 <= n < players.len() && n != num && (#[trigger] players[n] matches Some(c) && ((
        c.soaprunner.items.sword && c.claimed_sword == Some(index)) || (
        c.soaprunner.items.shield && c.claimed_shield == Some(index))))
}

/// A world stays well formed where one player and some entities change,
/// as long as the entities and the player are well formed, the player holds
/// its items rightly and apart from the others, the entities that other
/// players hold keep their kind and state, and the count of the players with
/// a shield follows the player.
#[verifier::rlimit(40)]
pub(crate) proof fn lemma_player_changed(before: &SoaprunServer, after: &SoaprunServer, num: usize)
    requires
        before.wf(),
        after.same_but_player(before, num),
        num < before.players@.len(),
        after.entities@.len() == before.entities@.len(),
        entities_wf(after.entities@),
        after.players@[num as int] matches Some(c) ==> {
            &&& c.wf()
            &&& c.number == num
            &&& claims_hold(c@, after.entities@)
            &&& forall|n: int|
                0 <= n < before.players@.len() && n != num ==> (
                #[trigger] before.players@[n] matches Some(o) ==> claims_apart(c@, o@))
        },
        forall|j: int|
            0 <= j < before.entities@.len() ==> {
                ||| (#[trigger] after.entities@[j]).unit.unit_type
                    == before.entities@[j].unit.unit_type && after.entities@[j].unit.unit_state
                    == before.entities@[j].unit.unit_state
                ||| !claimed_by_other(before.players@, num as int, j as usize)
            },
        after.players_with_shield + (if holds_shield(before.players@[num as int]) {
            1nat
        } else {
            0nat
        }) == before.players_with_shield + (if holds_shield(after.players@[num as int]) {
            1nat
        } else {
            0nat
        }),
    ensures
        after.wf(),
{
    lemma_shield_holders_update(before.players@, after.players@, num as int);
    assert forall|n: int| 0 <= n < after.players@.len() implies (
    #[trigger] after.players@[n] matches Some(c) ==> {
        &&& c.wf()
        &&& c.number == n
        &&& claims_hold(c@, after.entities@)
    }) by {
        if n != num {
            assert(after.players@[n] == before.players@[n]);
            match before.players@[n] {
                Some(c) => {
                    if c.soaprunner.items.sword {
                        let j = c.claimed_sword.unwrap();
                        assert(claimed_by_other(before.players@, num as int, j));
                        assert(j as int as usize == j);
                    }
                    if c.soaprunner.items.shield {
                        let j = c.claimed_shield.unwrap();
                        assert(claimed_by_other(before.players@, num as int, j));
                        assert(j as int as usize == j);
                    }
                },
                None => {},
            }
        }
    }
    assert forall|n: int, m: int| 0 <= n < m < after.players@.len() implies (
    #[trigger] after.players@[n] matches Some(a) ==> (
    #[trigger] after.players@[m] matches Some(b) ==> claims_apart(a@, b@))) by {
        if n != num {
            assert(after.players@[n] == before.players@[n]);
        }
        if m != num {
            assert(after.players@[m] == before.players@[m]);
        }
    }
}

/// No two players hold one sword, nor one shield: each item entity is in
/// the hand of one player at most.
pub proof fn lemma_items_held_once(server: &SoaprunServer, n: usize, m: usize)
    requires
        server.wf(),
        server.has_player(n),
        server.has_player(m),
        n != m,
    ensures
        claims_apart(server.player(n), server.player(m)),
{
    if n < m {
        assert(server.players@[n as int] matches Some(a) ==> (
        server.players@[m as int] matches Some(b) ==> claims_apart(a@, b@)));
    } else {
        assert(server.players@[m as int] matches Some(a) ==> (
        server.players@[n as int] matches Some(b) ==> claims_apart(a@, b@)));
    }
}

/// The sword and the shield that a player holds are entities of their
/// kind, and gone from the world while the player holds them.
pub proof fn lemma_held_items_are_gone(server: &SoaprunServer, n: usize)
    requires
        server.wf(),
        server.has_player(n),
    ensures
        claims_hold(server.player(n), server.entities@),
{
    assert(server.players@[n as int] is Some);
}

/// No player but its holder holds the sword or the shield of a player.
proof fn lemma_own_items_unclaimed(server: &SoaprunServer, num: usize)
    requires
        server.wf(),
        server.has_player(num),
    ensures
        server.player(num).soaprunner.items.sword ==> !claimed_by_other(
            server.players@,
            num as int,
            server.player(num).claimed_sword.unwrap(),
        ),
        server.player(num).soaprunner.items.shield ==> !claimed_by_other(
            server.players@,
            num as int,
            server.player(num).claimed_shield.unwrap(),
        ),
{
    let c = server.players@[num as int].unwrap();
    assert forall|n: int| 0 <= n < server.players@.len() && n != num implies (
    #[trigger] server.players@[n] matches Some(o) ==> claims_apart(c@, o@)) by {
        if n < num {
            assert(server.players@[n] matches Some(a) ==> (server.players@[num as int] matches Some(
                b,
            ) ==> claims_apart(a@, b@)));
        } else {
            assert(server.players@[num as int] matches Some(a) ==> (
            server.players@[n] matches Some(b) ==> claims_apart(a@, b@)));
        }
    }
    if c.soaprunner.items.sword {
        let j = c.claimed_sword.unwrap();
        if claimed_by_other(server.players@, num as int, j) {
            let n = choose|n: int|
                0 <= n < server.players@.len() && n != num && (
                #[trigger] server.players@[n] matches Some(o) && ((o.soaprunner.items.sword
                    && o.claimed_sword == Some(j)) || (o.soaprunner.items.shield
                    && o.claimed_shield == Some(j))));
            let o = server.players@[n].unwrap();
            assert(claims_hold(o@, server.entities@));
            assert(claims_hold(c@, server.entities@));
            assert(claims_apart(c@, o@));
        }
    }
    if c.soaprunner.items.shield {
        let j = c.claimed_shield.unwrap();
        if claimed_by_other(server.players@, num as int, j) {
            let n = choose|n: int|
                0 <= n < server.players@.len() && n != num && (
                #[trigger] server.players@[n] matches Some(o) && ((o.soaprunner.items.sword
                    && o.claimed_sword == Some(j)) || (o.soaprunner.items.shield
                    && o.claimed_shield == Some(j))));
            let o = server.players@[n].unwrap();
            assert(claims_hold(o@, server.entities@));
            assert(claims_hold(c@, server.entities@));
            assert(claims_apart(c@, o@));
        }
    }
}

/// No player holds an entity that is in the world, nor one that is
/// neither sword nor shield.
proof fn lemma_unclaimed(server: &SoaprunServer, num: usize, index: usize)
    requires
        server.wf(),
        0 <= index < server.entities@.len(),
        server.entities@[index as int].unit.unit_state != UnitStates::Corpse || (
        server.entities@[index as int].unit.unit_type != UnitTypes::Sword
            && server.entities@[index as int].unit.unit_type != UnitTypes::Shield),
    ensures
        !claimed_by_other(server.players@, num as int, index),
{
    if claimed_by_other(server.players@, num as int, index) {
        let n = choose|n: int|
            0 <= n < server.players@.len() && n != num && (
            #[trigger] server.players@[n] matches Some(o) && ((o.soaprunner.items.sword
                && o.claimed_sword == Some(index)) || (o.soaprunner.items.shield
                && o.claimed_shield == Some(index))));
        let o = server.players@[n].unwrap();
        assert(claims_hold(o@, server.entities@));
    }
}

/// The player under `num` holds its items apart from every other player,
/// whatever it has lost of them.
pub(crate) proof fn lemma_fewer_items_apart(server: &SoaprunServer, num: usize, c: ClientView)
    requires
        server.wf(),
        server.has_player(num),
        c.claimed_sword == server.player(num).claimed_sword,
        c.claimed_shield == server.player(num).claimed_shield,
        c.soaprunner.items.sword ==> server.player(num).soaprunner.items.sword,
        c.soaprunner.items.shield ==> server.player(num).soaprunner.items.shield,
    ensures
        forall|n: int|
            0 <= n < server.players@.len() && n != num ==> (
            #[trigger] server.players@[n] matches Some(o) ==> claims_apart(c, o@)),
{
    let me = server.players@[num as int].unwrap();
    assert forall|n: int| 0 <= n < server.players@.len() && n != num implies (
    #[trigger] server.players@[n] matches Some(o) ==> claims_apart(c, o@)) by {
        if n < num {
            assert(server.players@[n] matches Some(a) ==> (server.players@[num as int] matches Some(
                b,
            ) ==> claims_apart(a@, b@)));
        } else {
            assert(server.players@[num as int] matches Some(a) ==> (
            server.players@[n] matches Some(b) ==> claims_apart(a@, b@)));
        }
    }
}

impl SoaprunServer {
    /// Gives the sword back that the player under `num` holds.
    pub fn return_sword(&mut self, num: usize)
        requires
            old(self).wf(),
            old(self).has_player(num),
        ensures
            final(self).wf(),
            final(self).same_but_player(old(self), num),
            final(self).has_player(num),
            final(self).player(num) == old(self).player(num).without_sword(),
            final(self).players_with_shield == old(self).players_with_shield,
            !old(self).player(num).soaprunner.items.sword ==> final(self).entities@ == old(
                self,
            ).entities@,
            old(self).player(num).soaprunner.items.sword ==> entities_with(
                old(self).entities@,
                final(self).entities@,
                old(self).player(num).claimed_sword.unwrap() as int,
                old(self).entities@[old(self).player(num).claimed_sword.unwrap() as int]@.returned(),
            ),
    {
        match &mut self.players[num] {
            Some(client) => {
                Client::return_sword(client, &mut self.entities);
            },
            None => {},
        }
        proof {
            lemma_own_items_unclaimed(old(self), num);
            lemma_fewer_items_apart(old(self), num, self.player(num));
            lemma_player_changed(old(self), self, num);
        }
    }

    /// Drops the shield that the player under `num` holds.
    pub fn drop_shield(&mut self, num: usize)
        requires
            old(self).wf(),
            old(self).has_player(num),
        ensures
            final(self).wf(),
            final(self).same_but_player(old(self), num),
            final(self).has_player(num),
            final(self).player(num) == old(self).player(num).without_shield(),
            !old(self).player(num).soaprunner.items.shield ==> {
                &&& final(self).entities@ == old(self).entities@
                &&& final(self).players_with_shield == old(self).players_with_shield
            },
            old(self).player(num).soaprunner.items.shield ==> {
                &&& entities_with(
                    old(self).entities@,
                    final(self).entities@,
                    old(self).player(num).claimed_shield.unwrap() as int,
                    old(self).entities@[old(self).player(num).claimed_shield.unwrap() as int]@.dropped(
                        Client::landing(
                            old(self).entities@,
                            old(self).player(num).claimed_shield.unwrap() as int,
                            old(self).player(num).position(),
                        ),
                    ),
                )
                &&& final(self).players_with_shield == old(self).players_with_shield - 1
            },
    {
        proof {
            if holds_shield(self.players@[num as int]) {
                lemma_shield_holder_counted(self.players@, num as int);
            }
        }
        match &mut self.players[num] {
            Some(client) => {
                Client::drop_shield(client, &mut self.entities, &mut self.players_with_shield);
            },
            None => {},
        }
        proof {
            lemma_own_items_unclaimed(old(self), num);
            lemma_fewer_items_apart(old(self), num, self.player(num));
            lemma_player_changed(old(self), self, num);
        }
    }
}


impl SoaprunServer {
    /// What happens where the player under `num` says that it has run into
    /// the entity `entity_index`: nothing where there is no such entity or it
    /// is too far from the player, and else what the kind of the entity
    /// asks for.
    pub open spec fn collision(&self, num: usize, entity_index: u8) -> Collision {
        let c = self.player(num);
        if entity_index >= self.entities@.len() {
            Collision::Nothing
        } else {
            let e = self.entities@[entity_index as int]@;
            let awake = e.unit.unit_state == UnitStates::Active;
            if e.position().spec_taxicab_distance(c.position()) > COLLISION_REACH {
                Collision::Nothing
            } else {
                match e.unit.unit_type {
                    UnitTypes::Goal => Collision::Wins,
                    UnitTypes::Closer => if !awake {
                        Collision::Nothing
                    } else if c.soaprunner.items.sword {
                        Collision::PlayerSlays { delay: SLAIN_DELAY }
                    } else {
                        Collision::EntityKills
                    },
                    UnitTypes::Sword => if awake && !c.soaprunner.items.sword {
                        Collision::ClaimsSword
                    } else {
                        Collision::Nothing
                    },
                    UnitTypes::Wuss => if awake {
                        Collision::PlayerSlays { delay: SLAIN_DELAY }
                    } else {
                        Collision::Nothing
                    },
                    UnitTypes::Crawl => if c.soaprunner.items.sword {
                        Collision::PlayerSlays { delay: SLAIN_CRAWL_DELAY }
                    } else {
                        Collision::PlayerDies
                    },
                    UnitTypes::Hummer | UnitTypes::Rounder | UnitTypes::Gate | UnitTypes::Cross => {
                        if !c.soaprunner.items.shield {
                            Collision::PlayerDies
                        } else {
                            Collision::Nothing
                        }
                    },
                    UnitTypes::Chase => if !awake {
                        Collision::Nothing
                    } else if c.soaprunner.items.sword {
                        Collision::PlayerSlays { delay: SLAIN_DELAY }
                    } else {
                        Collision::PlayerDies
                    },
                    UnitTypes::Shield => if awake && !c.soaprunner.items.shield {
                        Collision::ClaimsShield
                    } else {
                        Collision::Nothing
                    },
                    UnitTypes::Snail => Collision::Nothing,
                }
            }
        }
    }

    /// Whether this world is `before` after the player under `num` slew the
    /// entity `index`, which lies dead for `delay` milliseconds: the player
    /// has one more kill, with what that brings, and the sword that it gave
    /// back for a crown is in the world again.
    pub open spec fn slain(&self, before: &SoaprunServer, num: usize, index: int, delay: usize) -> bool {
        let c = before.player(num);
        let gives_back = c.earns_crown() && c.soaprunner.items.sword;
        &&& self.player(num) == c.with_kill()
        &&& self.players_with_shield == before.players_with_shield
        &&& self.entities@.len() == before.entities@.len()
        &&& self.entities@[index]@ == before.entities@[index]@.killed(
            (delay / before.entity_update_rate) as usize,
        )
        &&& gives_back ==> self.entities@[c.claimed_sword.unwrap() as int]@
            == before.entities@[c.claimed_sword.unwrap() as int]@.returned()
        &&& forall|j: int|
            0 <= j < before.entities@.len() && j != index && !(gives_back && j
                == c.claimed_sword.unwrap()) ==> #[trigger] self.entities@[j]
                == before.entities@[j]
    }

    /// Whether this world is `before` after the player under `num` said
    /// that it had run into the entity `entity_index`.
    pub open spec fn collided(&self, before: &SoaprunServer, num: usize, entity_index: u8) -> bool {
        let c = before.player(num);
        let index = entity_index as int;
        &&& self.same_but_player(before, num)
        &&& self.has_player(num)
        &&& match before.collision(num, entity_index) {
            Collision::Nothing => {
                &&& self.player(num) == c
                &&& self.entities@ == before.entities@
                &&& self.players_with_shield == before.players_with_shield
            },
            Collision::Wins => {
                &&& self.player(num) == c.with_sprite(SoaprunnerSprites::Winning)
                &&& self.entities@ == before.entities@
                &&& self.players_with_shield == before.players_with_shield
            },
            Collision::PlayerDies => {
                &&& self.player(num) == c.with_sprite(SoaprunnerSprites::Dying)
                &&& self.entities@ == before.entities@
                &&& self.players_with_shield == before.players_with_shield
            },
            Collision::EntityKills => {
                &&& self.player(num) == c.with_sprite(SoaprunnerSprites::Dying)
                &&& entities_with(
                    before.entities@,
                    self.entities@,
                    index,
                    before.entities@[index]@.with_kill(),
                )
                &&& self.players_with_shield == before.players_with_shield
            },
            Collision::PlayerSlays { delay } => self.slain(before, num, index, delay),
            Collision::ClaimsSword => {
                &&& self.player(num) == c.with_sword(entity_index as usize)
                &&& entities_with(
                    before.entities@,
                    self.entities@,
                    index,
                    before.entities@[index]@.claimed(),
                )
                &&& self.players_with_shield == before.players_with_shield
            },
            Collision::ClaimsShield => {
                &&& self.player(num) == c.with_shield(entity_index as usize)
                &&& entities_with(
                    before.entities@,
                    self.entities@,
                    index,
                    before.entities@[index]@.claimed(),
                )
                &&& self.players_with_shield == before.players_with_shield + 1
            },
        }
    }

    fn classify_collision(&self, num: usize, entity_index: u8) -> (r: Collision)
        requires
            self.wf(),
            self.has_player(num),
        ensures
            r == self.collision(num, entity_index),
    {
        let index = entity_index as usize;
        if index >= self.entities.len() {
            return Collision::Nothing;
        }
        let (position, sword, shield) = match &self.players[num] {
            Some(c) => (c.position(), c.soaprunner.items.sword, c.soaprunner.items.shield),
            None => (client_spawn_position(), false, false),
        };
        let e = &self.entities[index];
        if e.position().taxicab_distance(&position) > COLLISION_REACH {
            return Collision::Nothing;
        }
        let awake = match e.unit.unit_state {
            UnitStates::Active => true,
            _ => false,
        };
        match e.unit.unit_type {
            UnitTypes::Goal => Collision::Wins,
            UnitTypes::Closer => if !awake {
                Collision::Nothing
            } else if sword {
                Collision::PlayerSlays { delay: SLAIN_DELAY }
            } else {
                Collision::EntityKills
            },
            UnitTypes::Sword => if awake && !sword {
                Collision::ClaimsSword
            } else {
                Collision::Nothing
            },
            UnitTypes::Wuss => if awake {
                Collision::PlayerSlays { delay: SLAIN_DELAY }
            } else {
                Collision::Nothing
            },
            UnitTypes::Crawl => if sword {
                Collision::PlayerSlays { delay: SLAIN_CRAWL_DELAY }
            } else {
                Collision::PlayerDies
            },
            UnitTypes::Hummer | UnitTypes::Rounder | UnitTypes::Gate | UnitTypes::Cross => {
                if !shield {
                    Collision::PlayerDies
                } else {
                    Collision::Nothing
                }
            },
            UnitTypes::Chase => if !awake {
                Collision::Nothing
            } else if sword {
                Collision::PlayerSlays { delay: SLAIN_DELAY }
            } else {
                Collision::PlayerDies
            },
            UnitTypes::Shield => if awake && !shield {
                Collision::ClaimsShield
            } else {
                Collision::Nothing
            },
            UnitTypes::Snail => Collision::Nothing,
        }
    }

    /// Gives the player under `num` the sprite `sprite`.
    pub fn set_sprite(&mut self, num: usize, sprite: SoaprunnerSprites)
        requires
            old(self).wf(),
            old(self).has_player(num),
        ensures
            final(self).wf(),
            final(self).same_but_player(old(self), num),
            final(self).has_player(num),
            final(self).player(num) == old(self).player(num).with_sprite(sprite),
            final(self).entities@ == old(self).entities@,
            final(self).players_with_shield == old(self).players_with_shield,
    {
        match &mut self.players[num] {
            Some(client) => {
                client.soaprunner.sprite = sprite;
            },
            None => {},
        }
        proof {
            lemma_fewer_items_apart(old(self), num, self.player(num));
            lemma_player_changed(old(self), self, num);
        }
    }

    #[verifier::rlimit(40)]
    fn slay(&mut self, num: usize, index: usize, delay: usize)
        requires
            old(self).wf(),
            old(self).has_player(num),
            index < old(self).entities@.len(),
            old(self).entities@[index as int].unit.unit_type != UnitTypes::Sword,
            old(self).entities@[index as int].unit.unit_type != UnitTypes::Shield,
        ensures
            final(self).wf(),
            final(self).same_but_player(old(self), num),
            final(self).has_player(num),
            final(self).slain(old(self), num, index as int, delay),
    {
        match &mut self.players[num] {
            Some(client) => {
                Client::add_kill(client, &mut self.entities);
            },
            None => {},
        }
        let rate = self.entity_update_rate;
        let ghost middle = self.entities@;
        Entity::kill(&mut self.entities[index], delay, rate);
        proof {
            assert(forall|j: int|
                0 <= j < middle.len() && j != index ==> self.entities@[j] == middle[j]);
            lemma_own_items_unclaimed(old(self), num);
            lemma_unclaimed(old(self), num, index);
            lemma_fewer_items_apart(old(self), num, self.player(num));
            assert(entities_wf(self.entities@)) by {
                assert forall|n: int| 0 <= n < self.entities@.len() implies (
                #[trigger] self.entities@[n]).wf() by {
                    assert(old(self).entities@[n].wf());
                }
            }
            lemma_player_changed(old(self), self, num);
        }
    }

    fn entity_kills(&mut self, num: usize, index: usize)
        requires
            old(self).wf(),
            old(self).has_player(num),
            index < old(self).entities@.len(),
            old(self).entities@[index as int].unit.unit_type == UnitTypes::Closer,
        ensures
            final(self).wf(),
            final(self).same_but_player(old(self), num),
            final(self).has_player(num),
            final(self).player(num) == old(self).player(num).with_sprite(SoaprunnerSprites::Dying),
            entities_with(
                old(self).entities@,
                final(self).entities@,
                index as int,
                old(self).entities@[index as int]@.with_kill(),
            ),
            final(self).players_with_shield == old(self).players_with_shield,
    {
        match &mut self.players[num] {
            Some(client) => {
                Client::kill(client);
            },
            None => {},
        }
        assert(old(self).entities@[index as int].wf());
        Entity::add_kill(&mut self.entities[index]);
        proof {
            assert(forall|j: int|
                0 <= j < old(self).entities@.len() && j != index ==> self.entities@[j] == old(
                    self,
                ).entities@[j]);
            lemma_unclaimed(old(self), num, index);
            lemma_fewer_items_apart(old(self), num, self.player(num));
            assert(entities_wf(self.entities@)) by {
                assert forall|n: int| 0 <= n < self.entities@.len() implies (
                #[trigger] self.entities@[n]).wf() by {
                    assert(old(self).entities@[n].wf());
                }
            }
            lemma_player_changed(old(self), self, num);
        }
    }

    fn claim_sword(&mut self, num: usize, index: usize)
        requires
            old(self).wf(),
            old(self).has_player(num),
            index < old(self).entities@.len(),
            old(self).entities@[index as int].unit.unit_type == UnitTypes::Sword,
            old(self).entities@[index as int].unit.unit_state == UnitStates::Active,
            !old(self).player(num).soaprunner.items.sword,
        ensures
            final(self).wf(),
            final(self).same_but_player(old(self), num),
            final(self).has_player(num),
            final(self).player(num) == old(self).player(num).with_sword(index),
            entities_with(
                old(self).entities@,
                final(self).entities@,
                index as int,
                old(self).entities@[index as int]@.claimed(),
            ),
            final(self).players_with_shield == old(self).players_with_shield,
    {
        match &mut self.players[num] {
            Some(client) => {
                Client::claim_sword(client, index, &mut self.entities);
            },
            None => {},
        }
        proof {
            lemma_unclaimed(old(self), num, index);
            assert(entities_wf(self.entities@)) by {
                assert forall|n: int| 0 <= n < self.entities@.len() implies (
                #[trigger] self.entities@[n]).wf() by {
                    assert(old(self).entities@[n].wf());
                }
            }
            let c = self.player(num);
            assert forall|n: int| 0 <= n < old(self).players@.len() && n != num implies (
            #[trigger] old(self).players@[n] matches Some(o) ==> claims_apart(c, o@)) by {
                match old(self).players@[n] {
                    Some(o) => {
                        lemma_fewer_items_apart(old(self), num, old(self).player(num));
                        assert(claims_hold(o@, old(self).entities@));
                    },
                    None => {},
                }
            }
            lemma_player_changed(old(self), self, num);
        }
    }

    fn claim_shield(&mut self, num: usize, index: usize)
        requires
            old(self).wf(),
            old(self).has_player(num),
            index < old(self).entities@.len(),
            old(self).entities@[index as int].unit.unit_type == UnitTypes::Shield,
            old(self).entities@[index as int].unit.unit_state == UnitStates::Active,
            !old(self).player(num).soaprunner.items.shield,
        ensures
            final(self).wf(),
            final(self).same_but_player(old(self), num),
            final(self).has_player(num),
            final(self).player(num) == old(self).player(num).with_shield(index),
            entities_with(
                old(self).entities@,
                final(self).entities@,
                index as int,
                old(self).entities@[index as int]@.claimed(),
            ),
            final(self).players_with_shield == old(self).players_with_shield + 1,
    {
        let places = self.players.len();
        proof {
            let c = self.players@[num as int].unwrap();
            let armed = Client {
                soaprunner: Soaprunner {
                    items: SoaprunnerItems { shield: true, ..c.soaprunner.items },
                    ..c.soaprunner
                },
                ..c
            };
            let with_one_more = self.players@.update(num as int, Some(armed));
            lemma_shield_holders_bound(with_one_more);
            lemma_shield_holders_update(self.players@, with_one_more, num as int);
            assert(holds_shield(with_one_more[num as int]));
            assert(!holds_shield(self.players@[num as int]));
            assert(self.players_with_shield + 1 <= places);
        }
        match &mut self.players[num] {
            Some(client) => {
                Client::claim_shield(
                    client,
                    index,
                    &mut self.entities,
                    &mut self.players_with_shield,
                );
            },
            None => {},
        }
        proof {
            lemma_unclaimed(old(self), num, index);
            assert(entities_wf(self.entities@)) by {
                assert forall|n: int| 0 <= n < self.entities@.len() implies (
                #[trigger] self.entities@[n]).wf() by {
                    assert(old(self).entities@[n].wf());
                }
            }
            let c = self.player(num);
            assert forall|n: int| 0 <= n < old(self).players@.len() && n != num implies (
            #[trigger] old(self).players@[n] matches Some(o) ==> claims_apart(c, o@)) by {
                match old(self).players@[n] {
                    Some(o) => {
                        lemma_fewer_items_apart(old(self), num, old(self).player(num));
                        assert(claims_hold(o@, old(self).entities@));
                    },
                    None => {},
                }
            }
            lemma_player_changed(old(self), self, num);
        }
    }

    /// Takes note that the player under `num` says that it has run into the
    /// entity `entity_index`.
    pub fn handle_collision(&mut self, num: usize, entity_index: u8)
        requires
            old(self).wf(),
            old(self).has_player(num),
        ensures
            final(self).wf(),
            final(self).collided(old(self), num, entity_index),
    {
        let index = entity_index as usize;
        match self.classify_collision(num, entity_index) {
            Collision::Nothing => {},
            Collision::Wins => {
                self.set_sprite(num, SoaprunnerSprites::Winning);
            },
            Collision::PlayerDies => {
                self.set_sprite(num, SoaprunnerSprites::Dying);
            },
            Collision::EntityKills => {
                self.entity_kills(num, index);
            },
            Collision::PlayerSlays { delay } => {
                self.slay(num, index, delay);
            },
            Collision::ClaimsSword => {
                self.claim_sword(num, index);
            },
            Collision::ClaimsShield => {
                self.claim_shield(num, index);
            },
        }
    }
}


/// A player with a sword who runs into a Closer that is awake and near
/// enough slays it, and with every tenth kill is crowned and gives the
/// sword back: the player has one more kill, wears the crown and holds no
/// sword; the sword is in the world again, with the next trigger; and the
/// Closer lies dead for five seconds of ticks.
pub proof fn lemma_tenth_kill_crowns(
    before: &SoaprunServer,
    after: &SoaprunServer,
    num: usize,
    entity_index: u8,
)
    requires
        before.wf(),
        before.has_player(num),
        after.collided(before, num, entity_index),
        before.player(num).soaprunner.items.sword,
        before.player(num).earns_crown(),
        entity_index < before.entities@.len(),
        before.entities@[entity_index as int].unit.unit_type == UnitTypes::Closer,
        before.entities@[entity_index as int].unit.unit_state == UnitStates::Active,
        before.entities@[entity_index as int].spec_position().spec_taxicab_distance(
            before.player(num).position(),
        ) <= COLLISION_REACH,
    ensures
        after.player(num).kills == before.player(num).next_kills(),
        after.player(num).soaprunner.items.crown,
        !after.player(num).soaprunner.items.sword,
        before.player(num).claimed_sword is Some,
        after.entities@[before.player(num).claimed_sword.unwrap() as int].unit.unit_state
            == UnitStates::Active,
        after.entities@[before.player(num).claimed_sword.unwrap() as int].unit.teleport_trigger
            == (if before.entities@[before.player(
            num,
        ).claimed_sword.unwrap() as int].unit.teleport_trigger == 255 {
            0u8
        } else {
            (before.entities@[before.player(
                num,
            ).claimed_sword.unwrap() as int].unit.teleport_trigger + 1) as u8
        }),
        after.entities@[entity_index as int].unit.unit_state == UnitStates::Corpse,
        after.entities@[entity_index as int].counter == 500,
{
    lemma_held_items_are_gone(before, num);
    let c = before.player(num);
    let sword = c.claimed_sword.unwrap() as int;
    assert(before.collision(num, entity_index) == (Collision::PlayerSlays { delay: SLAIN_DELAY }));
    assert(after.slain(before, num, entity_index as int, SLAIN_DELAY));
    assert(sword != entity_index);
    assert(before.entity_update_rate == 10);
    assert(SLAIN_DELAY == 5000);
    assert(5000usize / 10usize == 500);
    assert(after.entities@[sword]@ == before.entities@[sword]@.returned());
    assert(after.entities@[entity_index as int]@ == before.entities@[entity_index as int]@.killed(
        (SLAIN_DELAY / before.entity_update_rate) as usize,
    ));
}

} // verus!
