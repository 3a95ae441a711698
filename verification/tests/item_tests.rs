use rustpunk::item::{transfer_item, Inventory, Item, ItemEffect};

#[test]
fn new_inventory_is_empty() {
    let inv = Inventory::new();
    assert_eq!(inv.len(), 0);
}

#[test]
fn add_remove_get() {
    let mut inv = Inventory::new();
    inv.add_item(Item::new("sword".to_string(), "A sword.".to_string()));
    inv.add_item(Item::new("shield".to_string(), "A shield.".to_string()));
    assert_eq!(inv.len(), 2);
    assert_eq!(inv.get_item(0).name, "sword");
    assert_eq!(inv.get_item(1).name, "shield");
    let taken = inv.remove_item(0);
    assert_eq!(taken.name, "sword");
    assert_eq!(inv.len(), 1);
    assert_eq!(inv.get_item(0).name, "shield");
}

#[test]
fn item_new_defaults() {
    let it = Item::new("rock".to_string(), "Just a rock.".to_string());
    assert_eq!(it.name, "rock");
    assert_eq!(it.description, "Just a rock.");
    assert!(it.on_use.is_empty());
    assert!(it.wearable.is_empty());
    assert!(!it.consumable);
}

#[test]
fn healing_potion_fields() {
    let it = Item::healing_potion();
    assert_eq!(it.name, "healing potion");
    assert_eq!(it.description, "It's a healing potion!");
    assert!(it.consumable);
    assert_eq!(it.on_use.len(), 1);
    match it.on_use[0] {
        ItemEffect::ChangeHealth(n) => assert_eq!(n, 3),
        _ => panic!("unexpected effect"),
    }
}

#[test]
fn transfer_moves_one_item() {
    let mut src = Inventory::new();
    let mut dst = Inventory::new();
    src.add_item(Item::new("a".to_string(), "".to_string()));
    src.add_item(Item::new("b".to_string(), "".to_string()));
    src.add_item(Item::new("c".to_string(), "".to_string()));
    dst.add_item(Item::new("z".to_string(), "".to_string()));
    transfer_item(&mut src, &mut dst, 1);
    assert_eq!(src.len(), 2);
    assert_eq!(dst.len(), 2);
    assert_eq!(src.get_item(0).name, "a");
    assert_eq!(src.get_item(1).name, "c");
    assert_eq!(dst.get_item(1).name, "b");
}

#[test]
fn transfer_conserves_total_count() {
    let mut src = Inventory::new();
    let mut dst = Inventory::new();
    for name in ["a", "b", "c", "d"] {
        src.add_item(Item::new(name.to_string(), "".to_string()));
    }
    let total = src.len() + dst.len();
    transfer_item(&mut src, &mut dst, 3);
    assert_eq!(src.len() + dst.len(), total);
    transfer_item(&mut src, &mut dst, 0);
    assert_eq!(src.len() + dst.len(), total);
    transfer_item(&mut dst, &mut src, 0);
    assert_eq!(src.len() + dst.len(), total);
}
