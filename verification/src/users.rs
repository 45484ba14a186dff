//! User accounts with password hashes, and the user database.
use vstd::prelude::*;
use crate::text::{push_str, str_eq, to_string};

verus! {

/// `x` rotated left by `n` bits (0 < n < 8).
pub open spec fn rotl(x: u8, n: u8) -> u8 {
    ((x << n) | (x >> ((8 - n) as u8))) as u8
}

/// One input byte folded into the hash state at position `i`.
pub open spec fn absorb_byte(h: Seq<u8>, i: int, b: u8) -> Seq<u8> {
    let idx = i % 32;
    let h1 = h.update(idx, h[idx] ^ b);
    let j = (idx + 7) % 32;
    let h2 = h1.update(j, h1[j].wrapping_add(b));
    let k = (idx + 13) % 32;
    h2.update(k, rotl(h2[k], 3))
}

/// The state after folding in the first `n` bytes.
pub open spec fn absorb(p: Seq<u8>, n: int) -> Seq<u8>
    decreases n,
{
    if n <= 0 {
        Seq::new(32, |i: int| 0u8)
    } else {
        absorb_byte(absorb(p, n - 1), n - 1, p[n - 1])
    }
}

/// Mixing step `i`: byte `i` takes in its (already mixed) neighbour.
pub open spec fn mix_step(h: Seq<u8>, i: int) -> Seq<u8> {
    h.update(i, h[i].wrapping_add(rotl(h[(i + 1) % 32], 5)))
}

/// The first `i` steps of a mixing round.
pub open spec fn mix_upto(h: Seq<u8>, i: int) -> Seq<u8>
    decreases i,
{
    if i <= 0 {
        h
    } else {
        mix_step(mix_upto(h, i - 1), i - 1)
    }
}

/// `r` full mixing rounds.
pub open spec fn mix_rounds(h: Seq<u8>, r: int) -> Seq<u8>
    decreases r,
{
    if r <= 0 {
        h
    } else {
        mix_upto(mix_rounds(h, r - 1), 32)
    }
}

/// The 32-byte hash of a password's UTF-8 bytes: each byte folded in, then
/// 64 mixing rounds.
pub open spec fn password_hash(p: Seq<u8>) -> Seq<u8> {
    mix_rounds(absorb(p, p.len() as int), 64)
}

proof fn lemma_mix_upto_len(h: Seq<u8>, i: int)
    requires
        h.len() == 32,
        i <= 32,
    ensures
        mix_upto(h, i).len() == 32,
    decreases i,
{
    if i > 0 {
        lemma_mix_upto_len(h, i - 1);
    }
}

proof fn lemma_mix_rounds_len(h: Seq<u8>, r: int)
    requires
        h.len() == 32,
    ensures
        mix_rounds(h, r).len() == 32,
    decreases r,
{
    if r > 0 {
        lemma_mix_rounds_len(h, r - 1);
        lemma_mix_upto_len(mix_rounds(h, r - 1), 32);
    }
}

proof fn lemma_absorb_len(p: Seq<u8>, n: int)
    requires
        n <= p.len(),
    ensures
        absorb(p, n).len() == 32,
    decreases n,
{
    if n > 0 {
        lemma_absorb_len(p, n - 1);
    }
}

/// Every password hash is 32 bytes.
pub proof fn lemma_hash_len(p: Seq<u8>)
    ensures
        password_hash(p).len() == 32,
{
    lemma_absorb_len(p, p.len() as int);
    lemma_mix_rounds_len(absorb(p, p.len() as int), 64);
}

fn rotl_exec(x: u8, n: u8) -> (r: u8)
    requires
        0 < n < 8,
    ensures
        r == rotl(x, n),
{
    (x << n) | (x >> (8 - n))
}

/// The 32-byte password hash.
pub fn hash_password(password: &str) -> (h: Vec<u8>)
    ensures
        h@ == password_hash(vstd::utf8::encode_utf8(password@)),
{
    let bytes = password.as_bytes();
    let ghost p = bytes@;
    let mut hash: Vec<u8> = Vec::new();
    let mut z: usize = 0;
    while z < 32
        invariant
            z <= 32,
            hash@.len() == z,
            forall|k: int| 0 <= k < z ==> hash@[k] == 0,
        decreases 32 - z,
    {
        hash.push(0u8);
        z = z + 1;
    }
    assert(hash@ =~= absorb(p, 0));
    let n = bytes.len();
    let mut i: usize = 0;
    while i < n
        invariant
            p == bytes@,
            n == p.len(),
            i <= n,
            hash@ == absorb(p, i as int),
            hash@.len() == 32,
        decreases n - i,
    {
        let b = bytes[i];
        let idx = i % 32;
        let v = hash[idx] ^ b;
        hash.set(idx, v);
        let j = (idx + 7) % 32;
        let v = hash[j].wrapping_add(b);
        hash.set(j, v);
        let k = (idx + 13) % 32;
        let v = rotl_exec(hash[k], 3);
        hash.set(k, v);
        i = i + 1;
    }
    let mut round: usize = 0;
    while round < 64
        invariant
            round <= 64,
            hash@ == mix_rounds(absorb(p, p.len() as int), round as int),
            hash@.len() == 32,
        decreases 64 - round,
    {
        let ghost start = hash@;
        let mut i: usize = 0;
        while i < 32
            invariant
                i <= 32,
                start.len() == 32,
                hash@ == mix_upto(start, i as int),
                hash@.len() == 32,
            decreases 32 - i,
        {
            let v = hash[i].wrapping_add(rotl_exec(hash[(i + 1) % 32], 5));
            hash.set(i, v);
            i = i + 1;
            proof { lemma_mix_upto_len(start, i as int); }
        }
        round = round + 1;
    }
    hash
}

/// A user account.
pub struct User {
    pub uid: u32,
    pub username: String,
    pub password_hash: Vec<u8>,
    pub groups: Vec<u32>,
    pub home_dir: String,
}

impl User {
    /// The stored password hash.
    pub open spec fn hash(&self) -> Seq<u8> {
        self.password_hash@
    }

    /// An account with the password's hash, no groups, and home `/root` for
    /// uid 0, `/home/<name>` otherwise.
    pub fn new(uid: u32, username: &str, password: &str) -> (u: Self)
        ensures
            u.uid == uid,
            u.username@ == username@,
            u.hash() == password_hash(vstd::utf8::encode_utf8(password@)),
            u.groups@.len() == 0,
            uid == 0 ==> u.home_dir@ == "/root"@,
            uid != 0 ==> u.home_dir@ == "/home/"@ + username@,
    {
        let home_dir = if uid == 0 {
            to_string("/root")
        } else {
            let mut h = to_string("/home/");
            push_str(&mut h, username);
            h
        };
        User { uid, username: to_string(username), password_hash: hash_password(password), groups: Vec::new(), home_dir }
    }

    pub fn is_root(&self) -> (r: bool)
        ensures
            r == (self.uid == 0),
    {
        self.uid == 0
    }

    /// Whether the password hashes to the stored hash.
    pub fn verify_password(&self, password: &str) -> (r: bool)
        ensures
            r == (self.hash() == password_hash(vstd::utf8::encode_utf8(password@))),
    {
        let h = hash_password(password);
        proof { lemma_hash_len(vstd::utf8::encode_utf8(password@)); }
        let n = self.password_hash.len();
        if n != 32 {
            return false;
        }
        let mut i: usize = 0;
        while i < 32
            invariant
                n == self.password_hash@.len(),
                n == 32,
                h@.len() == 32,
                h@ == password_hash(vstd::utf8::encode_utf8(password@)),
                i <= 32,
                forall|k: int| 0 <= k < i ==> self.password_hash@[k] == h@[k],
            decreases 32 - i,
        {
            if self.password_hash[i] != h[i] {
                assert(self.password_hash@[i as int] != h@[i as int]);
                return false;
            }
            i = i + 1;
        }
        assert(self.password_hash@ =~= h@);
        true
    }

    /// An exact copy of the account.
    pub fn duplicate(&self) -> (u: User)
        ensures
            u.uid == self.uid && u.username@ == self.username@ && u.hash() == self.hash(),
            u.groups@ == self.groups@ && u.home_dir@ == self.home_dir@,
    {
        User {
            uid: self.uid,
            username: to_string(self.username.as_str()),
            password_hash: vstd::slice::slice_to_vec(self.password_hash.as_slice()),
            groups: vstd::slice::slice_to_vec(self.groups.as_slice()),
            home_dir: to_string(self.home_dir.as_str()),
        }
    }
}

/// The accounts, in the order they were added.
pub struct UserDatabase {
    pub users: Vec<User>,
}

/// Index of the first account with the name and the password, or the
/// number of accounts when none matches.
pub open spec fn first_login(us: Seq<User>, name: Seq<char>, pw: Seq<char>) -> int
    decreases us.len(),
{
    if us.len() == 0 {
        0
    } else if us[0].username@ == name && us[0].hash() == password_hash(vstd::utf8::encode_utf8(pw)) {
        0
    } else {
        1 + first_login(us.drop_first(), name, pw)
    }
}

/// Index of the first account with the name, or the number of accounts.
pub open spec fn first_named(us: Seq<User>, name: Seq<char>) -> int
    decreases us.len(),
{
    if us.len() == 0 {
        0
    } else if us[0].username@ == name {
        0
    } else {
        1 + first_named(us.drop_first(), name)
    }
}

proof fn lemma_first_login(us: Seq<User>, name: Seq<char>, pw: Seq<char>, k: int)
    requires
        0 <= k <= us.len(),
        forall|j: int| 0 <= j < k ==> !((#[trigger] us[j]).username@ == name && us[j].hash() == password_hash(vstd::utf8::encode_utf8(pw))),
        k == us.len() || (us[k].username@ == name && us[k].hash() == password_hash(vstd::utf8::encode_utf8(pw))),
    ensures
        first_login(us, name, pw) == k,
    decreases us.len(),
{
    if us.len() > 0 && k > 0 {
        assert forall|j: int| 0 <= j < k - 1 implies !((#[trigger] us.drop_first()[j]).username@ == name
            && us.drop_first()[j].hash() == password_hash(vstd::utf8::encode_utf8(pw))) by {
            assert(us.drop_first()[j] == us[j + 1]);
        }
        lemma_first_login(us.drop_first(), name, pw, k - 1);
    }
}

proof fn lemma_first_named(us: Seq<User>, name: Seq<char>, k: int)
    requires
        0 <= k <= us.len(),
        forall|j: int| 0 <= j < k ==> (#[trigger] us[j]).username@ != name,
        k == us.len() || us[k].username@ == name,
    ensures
        first_named(us, name) == k,
    decreases us.len(),
{
    if us.len() > 0 && k > 0 {
        assert forall|j: int| 0 <= j < k - 1 implies (#[trigger] us.drop_first()[j]).username@ != name by {
            assert(us.drop_first()[j] == us[j + 1]);
        }
        lemma_first_named(us.drop_first(), name, k - 1);
    }
}

impl UserDatabase {
    pub fn new() -> (db: Self)
        ensures
            db.users@.len() == 0,
    {
        UserDatabase { users: Vec::new() }
    }

    /// Adds the default accounts: `root` (uid 0, group 0, password
    /// `astral`) and `user` (uid 1000, group 1000, password `password`).
    pub fn init(&mut self)
        ensures
            final(self).users@.len() == old(self).users@.len() + 2,
            forall|k: int| 0 <= k < old(self).users@.len() ==> #[trigger] final(self).users@[k] == old(self).users@[k],
            ({
                let r = final(self).users@[old(self).users@.len() as int];
                &&& r.uid == 0 && r.username@ == "root"@ && r.groups@ == seq![0u32]
                &&& r.hash() == password_hash(vstd::utf8::encode_utf8("astral"@))
                &&& r.home_dir@ == "/root"@
            }),
            ({
                let u = final(self).users@[old(self).users@.len() + 1int];
                &&& u.uid == 1000 && u.username@ == "user"@ && u.groups@ == seq![1000u32]
                &&& u.hash() == password_hash(vstd::utf8::encode_utf8("password"@))
                &&& u.home_dir@ == "/home/"@ + "user"@
            }),
    {
        let mut root = User::new(0, "root", "astral");
        root.groups.push(0);
        let mut user = User::new(1000, "user", "password");
        user.groups.push(1000);
        self.users.push(root);
        self.users.push(user);
        proof {
            assert(root.groups@ =~= seq![0u32]);
            assert(user.groups@ =~= seq![1000u32]);
        }
    }

    /// A copy of the first account with this name and password.
    pub fn authenticate(&self, username: &str, password: &str) -> (r: Option<User>)
        ensures
            ({
                let i = first_login(self.users@, username@, password@);
                &&& r is None <==> i == self.users@.len()
                &&& r matches Some(u) ==> u.uid == self.users@[i].uid && u.username@ == self.users@[i].username@
                    && u.hash() == self.users@[i].hash() && u.groups@ == self.users@[i].groups@
                    && u.home_dir@ == self.users@[i].home_dir@
            }),
    {
        let mut i: usize = 0;
        while i < self.users.len()
            invariant
                i <= self.users@.len(),
                forall|j: int| 0 <= j < i ==> !((#[trigger] self.users@[j]).username@ == username@
                    && self.users@[j].hash() == password_hash(vstd::utf8::encode_utf8(password@))),
            decreases self.users@.len() - i,
        {
            if str_eq(self.users[i].username.as_str(), username) && self.users[i].verify_password(password) {
                proof { lemma_first_login(self.users@, username@, password@, i as int); }
                return Some(self.users[i].duplicate());
            }
            i = i + 1;
        }
        proof { lemma_first_login(self.users@, username@, password@, self.users@.len() as int); }
        None
    }

    /// The first account with this name.
    pub fn get_user(&self, username: &str) -> (r: Option<&User>)
        ensures
            ({
                let i = first_named(self.users@, username@);
                &&& r is None <==> i == self.users@.len()
                &&& r matches Some(u) ==> *u == self.users@[i]
            }),
    {
        let mut i: usize = 0;
        while i < self.users.len()
            invariant
                i <= self.users@.len(),
                forall|j: int| 0 <= j < i ==> (#[trigger] self.users@[j]).username@ != username@,
            decreases self.users@.len() - i,
        {
            if str_eq(self.users[i].username.as_str(), username) {
                proof { lemma_first_named(self.users@, username@, i as int); }
                return Some(&self.users[i]);
            }
            i = i + 1;
        }
        proof { lemma_first_named(self.users@, username@, self.users@.len() as int); }
        None
    }
}

/// Who is logged in.
pub struct Session {
    pub user: Option<User>,
    pub logged_in: bool,
}

impl Session {
    /// Nobody logged in.
    pub fn new() -> (s: Self)
        ensures
            s.user is None && !s.logged_in,
    {
        Session { user: None, logged_in: false }
    }

    pub fn login(&mut self, user: User)
        ensures
            final(self).user == Some(user) && final(self).logged_in,
    {
        self.user = Some(user);
        self.logged_in = true;
    }

    pub fn logout(&mut self)
        ensures
            final(self).user is None && !final(self).logged_in,
    {
        self.user = None;
        self.logged_in = false;
    }

    /// Whether the logged-in user is root.
    pub fn is_root(&self) -> (r: bool)
        ensures
            r == (self.user matches Some(u) && u.uid == 0),
    {
        match &self.user {
            Some(u) => u.is_root(),
            None => false,
        }
    }

    /// The logged-in user's name, or `guest`.
    pub fn username(&self) -> (r: String)
        ensures
            self.user matches Some(u) ==> r@ == u.username@,
            self.user is None ==> r@ == "guest"@,
    {
        match &self.user {
            Some(u) => to_string(u.username.as_str()),
            None => to_string("guest"),
        }
    }
}

/// Failed logins allowed before the console locks.
pub const MAX_ATTEMPTS: u32 = 3;

/// What one login attempt at the console comes to.
pub enum LoginOutcome {
    /// The credentials match this account.
    Success(User),
    /// Wrong credentials: ask again, with this many failures so far.
    Retry(u32),
    /// The last allowed attempt failed: the console locks.
    Locked,
}

/// One attempt at the login screen after `failures` failed ones: an empty
/// user name asks again without counting; matching credentials log in;
/// otherwise the failure is counted and the third one locks the console.
pub fn login_attempt(db: &UserDatabase, username: &str, password: &str, failures: u32) -> (r: LoginOutcome)
    requires
        failures < MAX_ATTEMPTS,
    ensures
        username@.len() == 0 ==> (r matches LoginOutcome::Retry(n) && n == failures),
        username@.len() > 0 && first_login(db.users@, username@, password@) < db.users@.len() ==> (r matches LoginOutcome::Success(u)
            && u.uid == db.users@[first_login(db.users@, username@, password@)].uid
            && u.username@ == username@),
        username@.len() > 0 && first_login(db.users@, username@, password@) == db.users@.len() ==> if failures + 1 >= MAX_ATTEMPTS {
            r is Locked
        } else {
            (r matches LoginOutcome::Retry(n) && n == failures + 1)
        },
{
    if username.unicode_len() == 0 {
        return LoginOutcome::Retry(failures);
    }
    match db.authenticate(username, password) {
        Some(u) => {
            proof { lemma_first_login_matches(db.users@, username@, password@); }
            LoginOutcome::Success(u)
        },
        None => {
            if failures + 1 >= MAX_ATTEMPTS {
                LoginOutcome::Locked
            } else {
                LoginOutcome::Retry(failures + 1)
            }
        },
    }
}

proof fn lemma_first_login_matches(us: Seq<User>, name: Seq<char>, pw: Seq<char>)
    ensures
        0 <= first_login(us, name, pw) <= us.len(),
        first_login(us, name, pw) < us.len() ==> us[first_login(us, name, pw)].username@ == name,
    decreases us.len(),
{
    if us.len() > 0 && !(us[0].username@ == name && us[0].hash() == password_hash(vstd::utf8::encode_utf8(pw))) {
        lemma_first_login_matches(us.drop_first(), name, pw);
        let k = first_login(us.drop_first(), name, pw);
        if k < us.len() - 1 {
            assert(us[1 + k] == us.drop_first()[k]);
        }
    }
}

} // verus!
