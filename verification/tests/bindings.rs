use push_to_talk::bindings::{
    resolve_bindings, BindError, BindingTable, HotkeySpec, KeySelector, KeymapEntry,
    ModifierMapEntry, Role,
};
use push_to_talk::mask::{ModifierMask, MOD_3, MOD_SHIFT};

fn push_spec(bits: u8, key: KeySelector) -> HotkeySpec {
    HotkeySpec { modifiers: ModifierMask::from_bits(bits), key }
}

#[test]
fn literal_push_binding_builds_both_tables() {
    let keymap: Vec<KeymapEntry> = Vec::new();
    let modmap: Vec<ModifierMapEntry> = Vec::new();
    let spec = push_spec(MOD_3, KeySelector::Code(62));
    let resolved = resolve_bindings(spec, None, &keymap, &modmap).unwrap();
    let m = ModifierMask::from_bits(MOD_3);
    assert_eq!(resolved.press.lookup(m, 62), Some(Role::Push));
    assert_eq!(resolved.release.lookup(m, 62), Some(Role::Push));
    assert_eq!(resolved.press.lookup(m, 63), None);
    assert_eq!(resolved.press.lookup(ModifierMask::from_bits(0), 62), None);
    assert_eq!(resolved.grabs.len(), 1);
    assert_eq!(resolved.grabs[0].modifiers, m);
    assert_eq!(resolved.grabs[0].code, 62);
}

#[test]
fn symbol_resolves_to_every_key_it_appears_at() {
    let keymap = vec![
        KeymapEntry { code: 50, sym: 0xffe1 },
        KeymapEntry { code: 62, sym: 0xffe1 },
        KeymapEntry { code: 38, sym: 0x0061 },
    ];
    let modmap: Vec<ModifierMapEntry> = Vec::new();
    let spec = push_spec(MOD_3, KeySelector::Sym(0xffe1));
    let resolved = resolve_bindings(spec, None, &keymap, &modmap).unwrap();
    let m = ModifierMask::from_bits(MOD_3);
    assert_eq!(resolved.press.lookup(m, 50), Some(Role::Push));
    assert_eq!(resolved.press.lookup(m, 62), Some(Role::Push));
    assert_eq!(resolved.press.lookup(m, 38), None);
    assert_eq!(resolved.grabs.len(), 2);
}

#[test]
fn unknown_symbol_fails_resolution() {
    let keymap = vec![KeymapEntry { code: 38, sym: 0x0061 }];
    let modmap: Vec<ModifierMapEntry> = Vec::new();
    let spec = push_spec(MOD_3, KeySelector::Sym(0xffe1));
    let r = resolve_bindings(spec, None, &keymap, &modmap);
    assert_eq!(r.err(), Some(BindError::UnknownSymbol));
}

#[test]
fn unknown_toggle_symbol_fails_resolution() {
    let keymap = vec![KeymapEntry { code: 38, sym: 0x0061 }];
    let modmap: Vec<ModifierMapEntry> = Vec::new();
    let push = push_spec(MOD_3, KeySelector::Code(62));
    let toggle = push_spec(MOD_SHIFT, KeySelector::Sym(0xffe9));
    let r = resolve_bindings(push, Some(toggle), &keymap, &modmap);
    assert_eq!(r.err(), Some(BindError::UnknownSymbol));
}

#[test]
fn same_key_under_two_roles_is_a_conflict() {
    let keymap: Vec<KeymapEntry> = Vec::new();
    let modmap: Vec<ModifierMapEntry> = Vec::new();
    let push = push_spec(MOD_3, KeySelector::Code(62));
    let toggle = push_spec(MOD_3, KeySelector::Code(62));
    let r = resolve_bindings(push, Some(toggle), &keymap, &modmap);
    assert_eq!(r.err(), Some(BindError::Conflict));
}

#[test]
fn distinct_masks_for_the_two_roles_coexist() {
    let keymap: Vec<KeymapEntry> = Vec::new();
    let modmap: Vec<ModifierMapEntry> = Vec::new();
    let push = push_spec(MOD_3, KeySelector::Code(62));
    let toggle = push_spec(MOD_3 | MOD_SHIFT, KeySelector::Code(62));
    let resolved = resolve_bindings(push, Some(toggle), &keymap, &modmap).unwrap();
    let pm = ModifierMask::from_bits(MOD_3);
    let tm = ModifierMask::from_bits(MOD_3 | MOD_SHIFT);
    assert_eq!(resolved.press.lookup(pm, 62), Some(Role::Push));
    assert_eq!(resolved.press.lookup(tm, 62), Some(Role::Toggle));
    assert_eq!(resolved.grabs.len(), 2);
}

#[test]
fn release_mask_carries_the_keys_own_modifier_bit() {
    // Keycode 62 is itself a shift key: its release reports shift as active.
    let keymap: Vec<KeymapEntry> = Vec::new();
    let modmap = vec![ModifierMapEntry {
        code: 62,
        mask: ModifierMask::from_bits(MOD_SHIFT),
    }];
    let spec = push_spec(MOD_3, KeySelector::Code(62));
    let resolved = resolve_bindings(spec, None, &keymap, &modmap).unwrap();
    let declared = ModifierMask::from_bits(MOD_3);
    let adjusted = ModifierMask::from_bits(MOD_3 | MOD_SHIFT);
    assert_eq!(resolved.press.lookup(declared, 62), Some(Role::Push));
    assert_eq!(resolved.release.lookup(adjusted, 62), Some(Role::Push));
    assert_eq!(resolved.release.lookup(declared, 62), None);
}

#[test]
fn release_masks_alone_can_conflict() {
    // The declared masks differ only by shift, and the key is itself a
    // shift key, so the two release-table keys coincide.
    let keymap: Vec<KeymapEntry> = Vec::new();
    let modmap = vec![ModifierMapEntry {
        code: 62,
        mask: ModifierMask::from_bits(MOD_SHIFT),
    }];
    let push = push_spec(MOD_3, KeySelector::Code(62));
    let toggle = push_spec(MOD_3 | MOD_SHIFT, KeySelector::Code(62));
    let r = resolve_bindings(push, Some(toggle), &keymap, &modmap);
    assert_eq!(r.err(), Some(BindError::Conflict));
}

#[test]
fn toggle_symbol_resolves_under_its_own_role() {
    let keymap = vec![
        KeymapEntry { code: 50, sym: 0xffe1 },
        KeymapEntry { code: 62, sym: 0xffe1 },
    ];
    let modmap: Vec<ModifierMapEntry> = Vec::new();
    let push = push_spec(MOD_3, KeySelector::Code(38));
    let toggle = push_spec(MOD_SHIFT, KeySelector::Sym(0xffe1));
    let resolved = resolve_bindings(push, Some(toggle), &keymap, &modmap).unwrap();
    let tm = ModifierMask::from_bits(MOD_SHIFT);
    assert_eq!(resolved.press.lookup(tm, 50), Some(Role::Toggle));
    assert_eq!(resolved.press.lookup(tm, 62), Some(Role::Toggle));
    assert_eq!(
        resolved.press.lookup(ModifierMask::from_bits(MOD_3), 38),
        Some(Role::Push)
    );
    assert_eq!(resolved.grabs.len(), 3);
}

#[test]
fn table_insert_detects_cross_role_claims() {
    let mut t = BindingTable::new();
    let m = ModifierMask::from_bits(MOD_3);
    assert!(t.insert(m, 62, Role::Push).is_ok());
    assert!(t.insert(m, 62, Role::Push).is_ok());
    assert_eq!(t.insert(m, 62, Role::Toggle), Err(BindError::Conflict));
    assert_eq!(t.lookup(m, 62), Some(Role::Push));
}
