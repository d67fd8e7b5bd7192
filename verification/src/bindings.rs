//! Hotkey binding resolution.
//!
//! A binding spec names a modifier mask and a key, the key either as a
//! literal physical keycode or as a symbolic key name (a keysym). Resolution
//! turns the push spec and the optional toggle spec into two lookup tables —
//! one for press events, one for release events — plus the list of key grabs
//! the process must request. The keyboard's symbol mapping and modifier
//! mapping are passed in as plain values; the caller obtains them from the
//! windowing system once at startup.

use vstd::prelude::*;

use crate::mask::ModifierMask;

verus! {

/// The interaction mode a binding belongs to: momentary push-to-talk or
/// latching toggle-to-talk.
#[derive(Clone, Copy, PartialEq, Eq, Structural, Debug)]
pub enum Role {
    Push,
    Toggle,
}

/// The key of a binding spec: a literal physical keycode, or a symbolic key
/// name to be resolved through the keyboard's symbol mapping.
#[derive(Clone, Copy, PartialEq, Eq, Structural, Debug)]
pub enum KeySelector {
    Code(u8),
    Sym(u32),
}

/// One hotkey binding spec as configured: a modifier mask and a key.
#[derive(Clone, Copy, PartialEq, Eq, Structural, Debug)]
pub struct HotkeySpec {
    pub modifiers: ModifierMask,
    pub key: KeySelector,
}

/// One row of the keyboard's symbol mapping: the symbol `sym` appears at the
/// physical key `code`. A symbol may appear at several keys.
#[derive(Clone, Copy, PartialEq, Eq, Structural, Debug)]
pub struct KeymapEntry {
    pub code: u8,
    pub sym: u32,
}

/// One row of the keyboard's modifier mapping: the physical key `code` acts
/// as the modifiers in `mask`. A key absent from the mapping is no modifier.
#[derive(Clone, Copy, PartialEq, Eq, Structural, Debug)]
pub struct ModifierMapEntry {
    pub code: u8,
    pub mask: ModifierMask,
}

/// An exclusive key grab the process must request: the keycode under its
/// declared modifier mask.
#[derive(Clone, Copy, PartialEq, Eq, Structural, Debug)]
pub struct GrabRequest {
    pub modifiers: ModifierMask,
    pub code: u8,
}

/// Why binding resolution failed.
#[derive(Clone, Copy, PartialEq, Eq, Structural, Debug)]
pub enum BindError {
    /// A symbolic key name appears at no physical key of the current layout.
    UnknownSymbol,
    /// The same `(modifiers, keycode)` pair is claimed by both roles in one
    /// table.
    Conflict,
}

/// One entry of a binding table: a `(modifiers, keycode)` key and the role
/// that claimed it.
#[derive(Clone, Copy, PartialEq, Eq, Structural, Debug)]
pub struct BindingEntry {
    pub modifiers: ModifierMask,
    pub code: u8,
    pub role: Role,
}

/// A lookup table from `(modifiers, keycode)` to role. Well-formed tables
/// hold at most one entry per key.
pub struct BindingTable {
    pub entries: Vec<BindingEntry>,
}

/// No two entries of `s` share a `(modifiers, keycode)` key.
pub open spec fn table_wf(s: Seq<BindingEntry>) -> bool {
    forall|i: int, j: int|
        0 <= i < s.len() && 0 <= j < s.len() && (#[trigger] s[i]).modifiers == (
        #[trigger] s[j]).modifiers && s[i].code == s[j].code ==> i == j
}

/// The role a well-formed table assigns to `(m, c)`, or `None` when no entry
/// claims that key.
pub open spec fn spec_lookup(s: Seq<BindingEntry>, m: ModifierMask, c: u8) -> Option<Role> {
    if exists|r: Role| s.contains(BindingEntry { modifiers: m, code: c, role: r }) {
        Some(choose|r: Role| s.contains(BindingEntry { modifiers: m, code: c, role: r }))
    } else {
        None
    }
}

impl BindingTable {
    /// What the table holds, as a sequence of entries.
    pub open spec fn view(self) -> Seq<BindingEntry> {
        self.entries@
    }

    /// Whether the table holds at most one entry per key.
    pub open spec fn wf(self) -> bool {
        table_wf(self.entries@)
    }

    /// An empty table.
    pub fn new() -> (r: BindingTable)
        ensures
            r.wf(),
            r@ =~= Seq::<BindingEntry>::empty(),
    {
        BindingTable { entries: Vec::new() }
    }

    /// The role claiming `(m, c)`, or `None` when no entry does.
    pub fn lookup(&self, m: ModifierMask, c: u8) -> (r: Option<Role>)
        requires
            self.wf(),
        ensures
            r == spec_lookup(self@, m, c),
    {
        let n = self.entries.len();
        let mut i: usize = 0;
        while i < n
            invariant
                n == self@.len(),
                0 <= i <= n,
                self.wf(),
                forall|j: int|
                    0 <= j < i ==> !((#[trigger] self@[j]).modifiers == m && self@[j].code == c),
            decreases n - i,
        {
            let e = self.entries[i];
            if e.modifiers == m && e.code == c {
                proof {
                    let full = BindingEntry { modifiers: m, code: c, role: e.role };
                    assert(self@[i as int] == full);
                    assert(self@.contains(full));
                    let r0 = choose|r: Role|
                        self@.contains(BindingEntry { modifiers: m, code: c, role: r });
                    let k = choose|k: int|
                        0 <= k < self@.len() && self@[k] == BindingEntry {
                            modifiers: m,
                            code: c,
                            role: r0,
                        };
                    assert(self@[k] == BindingEntry { modifiers: m, code: c, role: r0 });
                    assert(k == i);
                }
                return Some(e.role);
            }
            i += 1;
        }
        proof {
            if exists|r: Role| self@.contains(BindingEntry { modifiers: m, code: c, role: r }) {
                let r0 = choose|r: Role|
                    self@.contains(BindingEntry { modifiers: m, code: c, role: r });
                let k = choose|k: int|
                    0 <= k < self@.len() && self@[k] == BindingEntry {
                        modifiers: m,
                        code: c,
                        role: r0,
                    };
                assert(self@[k] == BindingEntry { modifiers: m, code: c, role: r0 });
            }
        }
        None
    }

    /// Claim `(m, c)` for `role`. Fails with `Conflict` exactly when the key
    /// is already claimed by the other role; claiming a key again for the
    /// same role changes nothing.
    pub fn insert(&mut self, m: ModifierMask, c: u8, role: Role) -> (r: Result<(), BindError>)
        requires
            old(self).wf(),
        ensures
            final(self).wf(),
            r matches Err(e) ==> e == BindError::Conflict,
            (r is Err) == spec_claimed_by_other(old(self)@, m, c, role),
            r is Err ==> final(self)@ == old(self)@,
            r is Ok ==> forall|e: BindingEntry| #[trigger]
                final(self)@.contains(e) <==> (old(self)@.contains(e) || e == (BindingEntry {
                    modifiers: m,
                    code: c,
                    role,
                })),
    {
        let n = self.entries.len();
        let mut i: usize = 0;
        while i < n
            invariant
                n == self@.len(),
                0 <= i <= n,
                self.wf(),
                forall|j: int|
                    0 <= j < i ==> !((#[trigger] self@[j]).modifiers == m && self@[j].code == c),
            decreases n - i,
        {
            let e = self.entries[i];
            if e.modifiers == m && e.code == c {
                if e.role == role {
                    proof {
                        assert(self@[i as int] == BindingEntry { modifiers: m, code: c, role });
                        assert(self@.contains(BindingEntry { modifiers: m, code: c, role }));
                        assert(forall|k: int|
                            0 <= k < self@.len() && (#[trigger] self@[k]).modifiers == m
                                && self@[k].code == c ==> k == i);
                    }
                    return Ok(());
                } else {
                    proof {
                        assert(self@[i as int] == BindingEntry {
                            modifiers: m,
                            code: c,
                            role: e.role,
                        });
                        assert(self@.contains(BindingEntry {
                            modifiers: m,
                            code: c,
                            role: e.role,
                        }));
                    }
                    return Err(BindError::Conflict);
                }
            }
            i += 1;
        }
        proof {
            if spec_claimed_by_other(self@, m, c, role) {
                let e0 = choose|e: BindingEntry|
                    self@.contains(e) && e.modifiers == m && e.code == c && e.role != role;
                let k = choose|k: int| 0 <= k < self@.len() && self@[k] == e0;
                assert(self@[k] == e0);
            }
        }
        let ghost before = self@;
        self.entries.push(BindingEntry { modifiers: m, code: c, role });
        proof {
            assert(self@ == before.push(BindingEntry { modifiers: m, code: c, role }));
            assert forall|e: BindingEntry| #[trigger]
                self@.contains(e) <==> (before.contains(e) || e == BindingEntry {
                    modifiers: m,
                    code: c,
                    role,
                }) by {
                if self@.contains(e) {
                    let k = choose|k: int| 0 <= k < self@.len() && self@[k] == e;
                    if k < before.len() {
                        assert(before[k] == e);
                        assert(before.contains(e));
                    } else {
                        assert(e == BindingEntry { modifiers: m, code: c, role });
                    }
                }
                if before.contains(e) {
                    let k = choose|k: int| 0 <= k < before.len() && before[k] == e;
                    assert(self@[k] == e);
                    assert(self@.contains(e));
                }
                if e == (BindingEntry { modifiers: m, code: c, role }) {
                    assert(self@[self@.len() - 1] == e);
                    assert(self@.contains(e));
                }
            }
            assert(table_wf(self@)) by {
                assert forall|i2: int, j2: int|
                    0 <= i2 < self@.len() && 0 <= j2 < self@.len() && (
                    #[trigger] self@[i2]).modifiers == (#[trigger] self@[j2]).modifiers
                        && self@[i2].code == self@[j2].code implies i2 == j2 by {
                    if i2 < before.len() && j2 < before.len() {
                        assert(before[i2] == self@[i2] && before[j2] == self@[j2]);
                    } else if i2 < before.len() && j2 == before.len() {
                        assert(before[i2] == self@[i2]);
                        assert(self@[j2] == BindingEntry { modifiers: m, code: c, role });
                    } else if i2 == before.len() && j2 < before.len() {
                        assert(before[j2] == self@[j2]);
                        assert(self@[i2] == BindingEntry { modifiers: m, code: c, role });
                    }
                }
            }
        }
        Ok(())
    }
}

/// Whether some entry of `s` claims `(m, c)` for a role other than `role`.
pub open spec fn spec_claimed_by_other(
    s: Seq<BindingEntry>,
    m: ModifierMask,
    c: u8,
    role: Role,
) -> bool {
    exists|e: BindingEntry| #[trigger] s.contains(e) && e.modifiers == m && e.code == c && e.role != role
}

/// Whether selector `sel` resolves to the physical key `c` under the symbol
/// mapping `keymap`: a literal keycode resolves to itself, a symbol to every
/// key it appears at.
pub open spec fn selector_resolves_to(sel: KeySelector, keymap: Seq<KeymapEntry>, c: u8) -> bool {
    match sel {
        KeySelector::Code(k) => c == k,
        KeySelector::Sym(s) => exists|i: int|
            0 <= i < keymap.len() && (#[trigger] keymap[i]).sym == s && keymap[i].code == c,
    }
}

/// Whether selector `sel` resolves to at least one physical key under
/// `keymap`. A literal keycode is always known; a symbol is known when it
/// appears somewhere in the mapping.
pub open spec fn selector_known(sel: KeySelector, keymap: Seq<KeymapEntry>) -> bool {
    match sel {
        KeySelector::Code(_) => true,
        KeySelector::Sym(s) => exists|i: int|
            0 <= i < keymap.len() && (#[trigger] keymap[i]).sym == s,
    }
}

/// All physical keys the selector resolves to, or `UnknownSymbol` when a
/// symbolic name appears at no key of the layout.
pub fn resolve_selector(sel: KeySelector, keymap: &Vec<KeymapEntry>) -> (r: Result<
    Vec<u8>,
    BindError,
>)
    ensures
        (r is Ok) == selector_known(sel, keymap@),
        r matches Err(e) ==> e == BindError::UnknownSymbol,
        r matches Ok(v) ==> forall|c: u8|
            #[trigger] v@.contains(c) <==> selector_resolves_to(sel, keymap@, c),
{
    match sel {
        KeySelector::Code(k) => {
            let mut v: Vec<u8> = Vec::new();
            v.push(k);
            proof {
                assert(v@ =~= seq![k]);
                assert forall|c: u8| #[trigger]
                    v@.contains(c) <==> selector_resolves_to(sel, keymap@, c) by {
                    if v@.contains(c) {
                        let j = choose|j: int| 0 <= j < v@.len() && v@[j] == c;
                        assert(c == k);
                    }
                    if c == k {
                        assert(v@[0] == c);
                    }
                }
            }
            Ok(v)
        },
        KeySelector::Sym(s) => {
            let mut v: Vec<u8> = Vec::new();
            let n = keymap.len();
            let mut i: usize = 0;
            while i < n
                invariant
                    n == keymap@.len(),
                    0 <= i <= n,
                    forall|c: u8|
                        #[trigger] v@.contains(c) <==> exists|j: int|
                            0 <= j < i && (#[trigger] keymap@[j]).sym == s && keymap@[j].code == c,
                decreases n - i,
            {
                let e = keymap[i];
                if e.sym == s {
                    let ghost before = v@;
                    v.push(e.code);
                    proof {
                        assert forall|c: u8| #[trigger]
                            v@.contains(c) <==> exists|j: int|
                                0 <= j < i + 1 && (#[trigger] keymap@[j]).sym == s
                                    && keymap@[j].code == c by {
                            vstd::seq_lib::lemma_seq_contains_after_push(before, e.code, c);
                            if v@.contains(c) {
                                if before.contains(c) {
                                    let j = choose|j: int|
                                        0 <= j < i && (#[trigger] keymap@[j]).sym == s
                                            && keymap@[j].code == c;
                                    assert(0 <= j < i + 1 && keymap@[j].sym == s && keymap@[j].code
                                        == c);
                                } else {
                                    assert(c == e.code);
                                    assert(keymap@[i as int].sym == s && keymap@[i as int].code
                                        == c);
                                }
                            }
                            if exists|j: int|
                                0 <= j < i + 1 && (#[trigger] keymap@[j]).sym == s
                                    && keymap@[j].code == c {
                                let j = choose|j: int|
                                    0 <= j < i + 1 && (#[trigger] keymap@[j]).sym == s
                                        && keymap@[j].code == c;
                                if j < i {
                                    assert(before.contains(c));
                                } else {
                                    assert(c == e.code);
                                }
                            }
                        }
                    }
                }
                i += 1;
            }
            if v.len() == 0 {
                proof {
                    if selector_known(sel, keymap@) {
                        let j = choose|j: int|
                            0 <= j < keymap@.len() && (#[trigger] keymap@[j]).sym == s;
                        assert(v@.contains(keymap@[j].code));
                    }
                }
                Err(BindError::UnknownSymbol)
            } else {
                proof {
                    assert(v@.contains(v@[0]));
                }
                Ok(v)
            }
        },
    }
}

/// The modifier bits the physical key `code` itself contributes: the mask of
/// the first row of `modmap` naming it, or the empty mask when the key is no
/// modifier.
pub open spec fn mod_bits_of(code: u8, modmap: Seq<ModifierMapEntry>) -> ModifierMask
    decreases modmap.len(),
{
    if modmap.len() == 0 {
        ModifierMask { bits: 0 }
    } else if modmap[0].code == code {
        modmap[0].mask
    } else {
        mod_bits_of(code, modmap.subrange(1, modmap.len() as int))
    }
}

/// The mask a release event for `code` must be looked up under: the declared
/// mask, with the key's own modifier bits OR'd in — a release of a key that
/// is itself a modifier still reports that modifier as active.
pub open spec fn release_mask_spec(
    declared: ModifierMask,
    code: u8,
    modmap: Seq<ModifierMapEntry>,
) -> ModifierMask {
    ModifierMask { bits: declared.bits | mod_bits_of(code, modmap).bits }
}

/// The `(modifiers, keycode)` key an entry for `c` gets: the declared mask
/// as it stands (press tables), or with the key's own modifier bits OR'd in
/// (release tables).
pub open spec fn entry_mask_for(
    declared: ModifierMask,
    c: u8,
    adjust: bool,
    modmap: Seq<ModifierMapEntry>,
) -> ModifierMask {
    if adjust {
        release_mask_spec(declared, c, modmap)
    } else {
        declared
    }
}

/// The modifier bits of `code` under the modifier mapping `modmap`.
pub fn modifier_bits(code: u8, modmap: &Vec<ModifierMapEntry>) -> (r: ModifierMask)
    ensures
        r == mod_bits_of(code, modmap@),
{
    let n = modmap.len();
    let mut i: usize = 0;
    proof {
        assert(modmap@.skip(0) =~= modmap@);
    }
    while i < n
        invariant
            n == modmap@.len(),
            0 <= i <= n,
            mod_bits_of(code, modmap@) == mod_bits_of(code, modmap@.skip(i as int)),
        decreases n - i,
    {
        let e = modmap[i];
        proof {
            assert(modmap@.skip(i as int)[0] == modmap@[i as int]);
        }
        if e.code == code {
            proof {
                assert(mod_bits_of(code, modmap@.skip(i as int)) == e.mask);
            }
            return e.mask;
        }
        proof {
            assert(modmap@.skip(i as int).subrange(
                1,
                modmap@.skip(i as int).len() as int,
            ) =~= modmap@.skip(i as int + 1));
        }
        i += 1;
    }
    proof {
        assert(modmap@.skip(n as int).len() == 0);
    }
    ModifierMask { bits: 0 }
}

/// Claim every key of `codes` for `role`, each under the mask
/// `entry_mask_for` gives it. Fails with `Conflict` exactly when some key of
/// `codes` was already claimed by the other role.
fn insert_role_entries(
    table: &mut BindingTable,
    codes: &Vec<u8>,
    declared: ModifierMask,
    role: Role,
    adjust: bool,
    modmap: &Vec<ModifierMapEntry>,
) -> (r: Result<(), BindError>)
    requires
        old(table).wf(),
    ensures
        final(table).wf(),
        r matches Err(e) ==> e == BindError::Conflict,
        r is Ok ==> forall|e: BindingEntry|
            #[trigger] final(table)@.contains(e) <==> (old(table)@.contains(e) || (e.role == role
                && codes@.contains(e.code) && e.modifiers == entry_mask_for(
                declared,
                e.code,
                adjust,
                modmap@,
            ))),
        r is Ok ==> forall|c: u8|
            #[trigger] codes@.contains(c) ==> !spec_claimed_by_other(
                old(table)@,
                entry_mask_for(declared, c, adjust, modmap@),
                c,
                role,
            ),
        r is Err ==> exists|c: u8|
            #[trigger] codes@.contains(c) && spec_claimed_by_other(
                old(table)@,
                entry_mask_for(declared, c, adjust, modmap@),
                c,
                role,
            ),
{
    let ghost orig = table@;
    let n = codes.len();
    let mut i: usize = 0;
    proof {
        assert(codes@.subrange(0, 0).len() == 0);
    }
    while i < n
        invariant
            orig == old(table)@,
            n == codes@.len(),
            0 <= i <= n,
            table.wf(),
            forall|e: BindingEntry|
                #[trigger] table@.contains(e) <==> (orig.contains(e) || (e.role == role
                    && codes@.subrange(0, i as int).contains(e.code) && e.modifiers
                    == entry_mask_for(declared, e.code, adjust, modmap@))),
            forall|j: int|
                0 <= j < i ==> !spec_claimed_by_other(
                    orig,
                    entry_mask_for(declared, #[trigger] codes@[j], adjust, modmap@),
                    codes@[j],
                    role,
                ),
        decreases n - i,
    {
        let c = codes[i];
        let m = if adjust {
            declared.union(modifier_bits(c, modmap))
        } else {
            declared
        };
        proof {
            assert(m == entry_mask_for(declared, c, adjust, modmap@));
        }
        let ghost before = table@;
        match table.insert(m, c, role) {
            Err(_) => {
                proof {
                    let e0 = choose|e: BindingEntry|
                        #[trigger] before.contains(e) && e.modifiers == m && e.code == c && e.role
                            != role;
                    assert(orig.contains(e0));
                    assert(spec_claimed_by_other(orig, m, c, role));
                    assert(codes@[i as int] == c);
                    assert(codes@.contains(c));
                    assert(exists|c2: u8|
                        #[trigger] codes@.contains(c2) && spec_claimed_by_other(
                            orig,
                            entry_mask_for(declared, c2, adjust, modmap@),
                            c2,
                            role,
                        ));
                }
                return Err(BindError::Conflict);
            },
            Ok(_) => {
                proof {
                    let ent = BindingEntry { modifiers: m, code: c, role };
                    assert(!spec_claimed_by_other(before, m, c, role));
                    if spec_claimed_by_other(orig, m, c, role) {
                        let e0 = choose|e: BindingEntry|
                            #[trigger] orig.contains(e) && e.modifiers == m && e.code == c
                                && e.role != role;
                        assert(before.contains(e0));
                    }
                    assert(!spec_claimed_by_other(orig, m, c, role));
                    assert forall|e: BindingEntry|
                        #[trigger] table@.contains(e) <==> (orig.contains(e) || (e.role == role
                            && codes@.subrange(0, i as int + 1).contains(e.code) && e.modifiers
                            == entry_mask_for(declared, e.code, adjust, modmap@))) by {
                        if table@.contains(e) {
                            if before.contains(e) {
                                if !orig.contains(e) {
                                    let j = choose|j: int|
                                        0 <= j < codes@.subrange(0, i as int).len()
                                            && #[trigger] codes@.subrange(0, i as int)[j] == e.code;
                                    assert(codes@.subrange(0, i as int + 1)[j] == e.code);
                                    assert(codes@.subrange(0, i as int + 1).contains(e.code));
                                }
                            } else {
                                assert(e == ent);
                                assert(codes@.subrange(0, i as int + 1)[i as int] == e.code);
                                assert(codes@.subrange(0, i as int + 1).contains(e.code));
                            }
                        }
                        if orig.contains(e) {
                            assert(before.contains(e));
                            assert(table@.contains(e));
                        }
                        if e.role == role && codes@.subrange(0, i as int + 1).contains(e.code)
                            && e.modifiers == entry_mask_for(declared, e.code, adjust, modmap@) {
                            let j = choose|j: int|
                                0 <= j < codes@.subrange(0, i as int + 1).len()
                                    && #[trigger] codes@.subrange(0, i as int + 1)[j] == e.code;
                            if j < i {
                                assert(codes@.subrange(0, i as int)[j] == e.code);
                                assert(codes@.subrange(0, i as int).contains(e.code));
                                assert(before.contains(e));
                            } else {
                                assert(e.code == c);
                                assert(e == ent);
                            }
                            assert(table@.contains(e));
                        }
                    }
                }
            },
        }
        i += 1;
    }
    proof {
        assert(codes@.subrange(0, n as int) =~= codes@);
        assert forall|c: u8| #[trigger]
            codes@.contains(c) implies !spec_claimed_by_other(
            orig,
            entry_mask_for(declared, c, adjust, modmap@),
            c,
            role,
        ) by {
            let j = choose|j: int| 0 <= j < codes@.len() && #[trigger] codes@[j] == c;
        }
    }
    Ok(())
}

/// Append one grab request per key of `codes`, each under the declared mask.
fn append_grabs(grabs: &mut Vec<GrabRequest>, codes: &Vec<u8>, declared: ModifierMask)
    ensures
        forall|g: GrabRequest|
            #[trigger] final(grabs)@.contains(g) <==> (old(grabs)@.contains(g) || (g.modifiers
                == declared && codes@.contains(g.code))),
{
    let ghost orig = grabs@;
    let n = codes.len();
    let mut i: usize = 0;
    proof {
        assert(codes@.subrange(0, 0).len() == 0);
    }
    while i < n
        invariant
            orig == old(grabs)@,
            n == codes@.len(),
            0 <= i <= n,
            forall|g: GrabRequest|
                #[trigger] grabs@.contains(g) <==> (orig.contains(g) || (g.modifiers == declared
                    && codes@.subrange(0, i as int).contains(g.code))),
        decreases n - i,
    {
        let c = codes[i];
        let ghost before = grabs@;
        grabs.push(GrabRequest { modifiers: declared, code: c });
        proof {
            let ent = GrabRequest { modifiers: declared, code: c };
            assert forall|g: GrabRequest|
                #[trigger] grabs@.contains(g) <==> (orig.contains(g) || (g.modifiers == declared
                    && codes@.subrange(0, i as int + 1).contains(g.code))) by {
                vstd::seq_lib::lemma_seq_contains_after_push(before, ent, g);
                if grabs@.contains(g) {
                    if before.contains(g) {
                        if !orig.contains(g) {
                            let j = choose|j: int|
                                0 <= j < codes@.subrange(0, i as int).len()
                                    && #[trigger] codes@.subrange(0, i as int)[j] == g.code;
                            assert(codes@.subrange(0, i as int + 1)[j] == g.code);
                            assert(codes@.subrange(0, i as int + 1).contains(g.code));
                        }
                    } else {
                        assert(g == ent);
                        assert(codes@.subrange(0, i as int + 1)[i as int] == g.code);
                        assert(codes@.subrange(0, i as int + 1).contains(g.code));
                    }
                }
                if orig.contains(g) {
                    assert(before.contains(g));
                    assert(grabs@.contains(g));
                }
                if g.modifiers == declared && codes@.subrange(0, i as int + 1).contains(g.code) {
                    let j = choose|j: int|
                        0 <= j < codes@.subrange(0, i as int + 1).len()
                            && #[trigger] codes@.subrange(0, i as int + 1)[j] == g.code;
                    if j < i {
                        assert(codes@.subrange(0, i as int)[j] == g.code);
                        assert(codes@.subrange(0, i as int).contains(g.code));
                        assert(before.contains(g));
                    } else {
                        assert(g.code == c);
                        assert(g == ent);
                    }
                    assert(grabs@.contains(g));
                }
            }
        }
        i += 1;
    }
    proof {
        assert(codes@.subrange(0, n as int) =~= codes@);
    }
}

/// Whether some configured spec uses a symbolic key name that appears at no
/// physical key of the layout.
pub open spec fn has_unknown_symbol(
    push: HotkeySpec,
    toggle: Option<HotkeySpec>,
    keymap: Seq<KeymapEntry>,
) -> bool {
    ||| !selector_known(push.key, keymap)
    ||| (toggle matches Some(t) && !selector_known(t.key, keymap))
}

/// Whether the two specs claim the same `(modifiers, keycode)` key of the
/// press table for their two different roles.
pub open spec fn press_conflict(
    push: HotkeySpec,
    toggle: Option<HotkeySpec>,
    keymap: Seq<KeymapEntry>,
) -> bool {
    toggle matches Some(t) && push.modifiers == t.modifiers && exists|c: u8|
        #[trigger] selector_resolves_to(push.key, keymap, c) && selector_resolves_to(
            t.key,
            keymap,
            c,
        )
}

/// Whether the two specs claim the same `(modifiers, keycode)` key of the
/// release table — whose masks carry each key's own modifier bits — for
/// their two different roles.
pub open spec fn release_conflict(
    push: HotkeySpec,
    toggle: Option<HotkeySpec>,
    keymap: Seq<KeymapEntry>,
    modmap: Seq<ModifierMapEntry>,
) -> bool {
    toggle matches Some(t) && exists|c: u8|
        #[trigger] selector_resolves_to(push.key, keymap, c) && selector_resolves_to(
            t.key,
            keymap,
            c,
        ) && release_mask_spec(push.modifiers, c, modmap) == release_mask_spec(
            t.modifiers,
            c,
            modmap,
        )
}

/// Whether the two specs collide in either table.
pub open spec fn binding_conflict(
    push: HotkeySpec,
    toggle: Option<HotkeySpec>,
    keymap: Seq<KeymapEntry>,
    modmap: Seq<ModifierMapEntry>,
) -> bool {
    press_conflict(push, toggle, keymap) || release_conflict(push, toggle, keymap, modmap)
}

/// The entries the press table must hold: for each spec, its declared mask
/// paired with every key its selector resolves to, under its role.
pub open spec fn press_entry_expected(
    e: BindingEntry,
    push: HotkeySpec,
    toggle: Option<HotkeySpec>,
    keymap: Seq<KeymapEntry>,
) -> bool {
    ||| (e.role == Role::Push && e.modifiers == push.modifiers && selector_resolves_to(
        push.key,
        keymap,
        e.code,
    ))
    ||| (toggle matches Some(t) && e.role == Role::Toggle && e.modifiers == t.modifiers
        && selector_resolves_to(t.key, keymap, e.code))
}

/// The entries the release table must hold: as the press table, but each
/// key's mask carries the key's own modifier bits.
pub open spec fn release_entry_expected(
    e: BindingEntry,
    push: HotkeySpec,
    toggle: Option<HotkeySpec>,
    keymap: Seq<KeymapEntry>,
    modmap: Seq<ModifierMapEntry>,
) -> bool {
    ||| (e.role == Role::Push && selector_resolves_to(push.key, keymap, e.code) && e.modifiers
        == release_mask_spec(push.modifiers, e.code, modmap))
    ||| (toggle matches Some(t) && e.role == Role::Toggle && selector_resolves_to(
        t.key,
        keymap,
        e.code,
    ) && e.modifiers == release_mask_spec(t.modifiers, e.code, modmap))
}

/// The grabs resolution must request: every resolved key of each spec, under
/// that spec's declared mask.
pub open spec fn grab_expected(
    g: GrabRequest,
    push: HotkeySpec,
    toggle: Option<HotkeySpec>,
    keymap: Seq<KeymapEntry>,
) -> bool {
    ||| (g.modifiers == push.modifiers && selector_resolves_to(push.key, keymap, g.code))
    ||| (toggle matches Some(t) && g.modifiers == t.modifiers && selector_resolves_to(
        t.key,
        keymap,
        g.code,
    ))
}

/// What binding resolution produces: the two lookup tables and the grabs to
/// request.
pub struct ResolvedBindings {
    pub press: BindingTable,
    pub release: BindingTable,
    pub grabs: Vec<GrabRequest>,
}


/// Resolve the push spec and the optional toggle spec into the press and
/// release lookup tables and the list of key grabs to request.
///
/// Fails with `UnknownSymbol` exactly when some spec names a symbol that
/// appears at no key, and otherwise with `Conflict` exactly when the two
/// roles claim the same `(modifiers, keycode)` key of either table. On
/// failure no grabs are produced, so a conflicting configuration registers
/// none.
pub fn resolve_bindings(
    push: HotkeySpec,
    toggle: Option<HotkeySpec>,
    keymap: &Vec<KeymapEntry>,
    modmap: &Vec<ModifierMapEntry>,
) -> (r: Result<ResolvedBindings, BindError>)
    ensures
        (r matches Err(BindError::UnknownSymbol)) == has_unknown_symbol(push, toggle, keymap@),
        (r matches Err(BindError::Conflict)) == (!has_unknown_symbol(push, toggle, keymap@)
            && binding_conflict(push, toggle, keymap@, modmap@)),
        r matches Ok(b) ==> {
            &&& b.press.wf()
            &&& b.release.wf()
            &&& forall|e: BindingEntry|
                #[trigger] b.press@.contains(e) <==> press_entry_expected(e, push, toggle, keymap@)
            &&& forall|e: BindingEntry|
                #[trigger] b.release@.contains(e) <==> release_entry_expected(
                    e,
                    push,
                    toggle,
                    keymap@,
                    modmap@,
                )
            &&& forall|g: GrabRequest|
                #[trigger] b.grabs@.contains(g) <==> grab_expected(g, push, toggle, keymap@)
        },
{
    let push_codes = match resolve_selector(push.key, keymap) {
        Ok(v) => v,
        Err(e) => {
            return Err(e);
        },
    };
    let mut press = BindingTable::new();
    let mut release = BindingTable::new();

    let ghost press0 = press@;
    // A fresh table holds no claim of the other role, so inserting the push
    // entries cannot conflict.
    if let Err(e) = insert_role_entries(
        &mut press,
        &push_codes,
        push.modifiers,
        Role::Push,
        false,
        modmap,
    ) {
        proof {
            let c0 = choose|c: u8|
                #[trigger] push_codes@.contains(c) && spec_claimed_by_other(
                    press0,
                    entry_mask_for(push.modifiers, c, false, modmap@),
                    c,
                    Role::Push,
                );
            let e0 = choose|e2: BindingEntry|
                #[trigger] press0.contains(e2) && e2.modifiers == entry_mask_for(
                    push.modifiers,
                    c0,
                    false,
                    modmap@,
                ) && e2.code == c0 && e2.role != Role::Push;
            let k = choose|k: int| 0 <= k < press0.len() && press0[k] == e0;
            assert(false);
        }
        return Err(e);
    }
    let ghost release0 = release@;
    if let Err(e) = insert_role_entries(
        &mut release,
        &push_codes,
        push.modifiers,
        Role::Push,
        true,
        modmap,
    ) {
        proof {
            let c0 = choose|c: u8|
                #[trigger] push_codes@.contains(c) && spec_claimed_by_other(
                    release0,
                    entry_mask_for(push.modifiers, c, true, modmap@),
                    c,
                    Role::Push,
                );
            let e0 = choose|e2: BindingEntry|
                #[trigger] release0.contains(e2) && e2.modifiers == entry_mask_for(
                    push.modifiers,
                    c0,
                    true,
                    modmap@,
                ) && e2.code == c0 && e2.role != Role::Push;
            let k = choose|k: int| 0 <= k < release0.len() && release0[k] == e0;
            assert(false);
        }
        return Err(e);
    }
    let mut grabs: Vec<GrabRequest> = Vec::new();
    let ghost grabs0 = grabs@;
    append_grabs(&mut grabs, &push_codes, push.modifiers);

    match toggle {
        None => {
            proof {
                assert forall|e: BindingEntry|
                    #[trigger] press@.contains(e) <==> press_entry_expected(
                        e,
                        push,
                        toggle,
                        keymap@,
                    ) by {
                    assert(push_codes@.contains(e.code) == selector_resolves_to(
                        push.key,
                        keymap@,
                        e.code,
                    ));
                }
                assert forall|e: BindingEntry|
                    #[trigger] release@.contains(e) <==> release_entry_expected(
                        e,
                        push,
                        toggle,
                        keymap@,
                        modmap@,
                    ) by {
                    assert(push_codes@.contains(e.code) == selector_resolves_to(
                        push.key,
                        keymap@,
                        e.code,
                    ));
                }
                assert forall|g: GrabRequest|
                    #[trigger] grabs@.contains(g) <==> grab_expected(g, push, toggle, keymap@) by {
                    assert(push_codes@.contains(g.code) == selector_resolves_to(
                        push.key,
                        keymap@,
                        g.code,
                    ));
                }
            }
            Ok(ResolvedBindings { press, release, grabs })
        },
        Some(t) => {
            let toggle_codes = match resolve_selector(t.key, keymap) {
                Ok(v) => v,
                Err(e) => {
                    return Err(e);
                },
            };
            let ghost press1 = press@;
            if let Err(e) = insert_role_entries(
                &mut press,
                &toggle_codes,
                t.modifiers,
                Role::Toggle,
                false,
                modmap,
            ) {
                proof {
                    let c0 = choose|c: u8|
                        #[trigger] toggle_codes@.contains(c) && spec_claimed_by_other(
                            press1,
                            entry_mask_for(t.modifiers, c, false, modmap@),
                            c,
                            Role::Toggle,
                        );
                    let e0 = choose|e2: BindingEntry|
                        #[trigger] press1.contains(e2) && e2.modifiers == entry_mask_for(
                            t.modifiers,
                            c0,
                            false,
                            modmap@,
                        ) && e2.code == c0 && e2.role != Role::Toggle;
                    assert(push_codes@.contains(c0) == selector_resolves_to(
                        push.key,
                        keymap@,
                        c0,
                    ));
                    assert(toggle_codes@.contains(c0) == selector_resolves_to(
                        t.key,
                        keymap@,
                        c0,
                    ));
                    assert(selector_resolves_to(push.key, keymap@, c0) && selector_resolves_to(
                        t.key,
                        keymap@,
                        c0,
                    ));
                    assert(press_conflict(push, toggle, keymap@));
                }
                return Err(e);
            }
            proof {
                if press_conflict(push, toggle, keymap@) {
                    let c0 = choose|c: u8|
                        #[trigger] selector_resolves_to(push.key, keymap@, c)
                            && selector_resolves_to(t.key, keymap@, c);
                    assert(push_codes@.contains(c0) == selector_resolves_to(
                        push.key,
                        keymap@,
                        c0,
                    ));
                    assert(toggle_codes@.contains(c0) == selector_resolves_to(
                        t.key,
                        keymap@,
                        c0,
                    ));
                    let ent = BindingEntry {
                        modifiers: push.modifiers,
                        code: c0,
                        role: Role::Push,
                    };
                    assert(press1.contains(ent));
                    assert(spec_claimed_by_other(press1, t.modifiers, c0, Role::Toggle));
                    assert(false);
                }
            }
            let ghost release1 = release@;
            if let Err(e) = insert_role_entries(
                &mut release,
                &toggle_codes,
                t.modifiers,
                Role::Toggle,
                true,
                modmap,
            ) {
                proof {
                    let c0 = choose|c: u8|
                        #[trigger] toggle_codes@.contains(c) && spec_claimed_by_other(
                            release1,
                            entry_mask_for(t.modifiers, c, true, modmap@),
                            c,
                            Role::Toggle,
                        );
                    let e0 = choose|e2: BindingEntry|
                        #[trigger] release1.contains(e2) && e2.modifiers == entry_mask_for(
                            t.modifiers,
                            c0,
                            true,
                            modmap@,
                        ) && e2.code == c0 && e2.role != Role::Toggle;
                    assert(push_codes@.contains(c0) == selector_resolves_to(
                        push.key,
                        keymap@,
                        c0,
                    ));
                    assert(toggle_codes@.contains(c0) == selector_resolves_to(
                        t.key,
                        keymap@,
                        c0,
                    ));
                    assert(release_mask_spec(push.modifiers, c0, modmap@) == release_mask_spec(
                        t.modifiers,
                        c0,
                        modmap@,
                    ));
                    assert(release_conflict(push, toggle, keymap@, modmap@));
                }
                return Err(e);
            }
            proof {
                if release_conflict(push, toggle, keymap@, modmap@) {
                    let c0 = choose|c: u8|
                        #[trigger] selector_resolves_to(push.key, keymap@, c)
                            && selector_resolves_to(t.key, keymap@, c) && release_mask_spec(
                            push.modifiers,
                            c,
                            modmap@,
                        ) == release_mask_spec(t.modifiers, c, modmap@);
                    assert(push_codes@.contains(c0) == selector_resolves_to(
                        push.key,
                        keymap@,
                        c0,
                    ));
                    assert(toggle_codes@.contains(c0) == selector_resolves_to(
                        t.key,
                        keymap@,
                        c0,
                    ));
                    let ent = BindingEntry {
                        modifiers: release_mask_spec(push.modifiers, c0, modmap@),
                        code: c0,
                        role: Role::Push,
                    };
                    assert(release1.contains(ent));
                    assert(spec_claimed_by_other(
                        release1,
                        release_mask_spec(t.modifiers, c0, modmap@),
                        c0,
                        Role::Toggle,
                    ));
                    assert(false);
                }
            }
            append_grabs(&mut grabs, &toggle_codes, t.modifiers);
            proof {
                assert forall|e: BindingEntry|
                    #[trigger] press@.contains(e) <==> press_entry_expected(
                        e,
                        push,
                        toggle,
                        keymap@,
                    ) by {
                    assert(push_codes@.contains(e.code) == selector_resolves_to(
                        push.key,
                        keymap@,
                        e.code,
                    ));
                    assert(toggle_codes@.contains(e.code) == selector_resolves_to(
                        t.key,
                        keymap@,
                        e.code,
                    ));
                }
                assert forall|e: BindingEntry|
                    #[trigger] release@.contains(e) <==> release_entry_expected(
                        e,
                        push,
                        toggle,
                        keymap@,
                        modmap@,
                    ) by {
                    assert(push_codes@.contains(e.code) == selector_resolves_to(
                        push.key,
                        keymap@,
                        e.code,
                    ));
                    assert(toggle_codes@.contains(e.code) == selector_resolves_to(
                        t.key,
                        keymap@,
                        e.code,
                    ));
                }
                assert forall|g: GrabRequest|
                    #[trigger] grabs@.contains(g) <==> grab_expected(g, push, toggle, keymap@) by {
                    assert(push_codes@.contains(g.code) == selector_resolves_to(
                        push.key,
                        keymap@,
                        g.code,
                    ));
                    assert(toggle_codes@.contains(g.code) == selector_resolves_to(
                        t.key,
                        keymap@,
                        g.code,
                    ));
                }
            }
            Ok(ResolvedBindings { press, release, grabs })
        },
    }
}

} // verus!
