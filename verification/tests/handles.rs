use atlas_page::AtlasPage;
use atlas_page::Extent;
use atlas_page::HandleMint;
use atlas_page::Slot;

#[test]
fn mint_counts_up_from_one() {
    let mut mint = HandleMint::new();
    let a = mint.create_handle().unwrap();
    let b = mint.create_handle().unwrap();
    let c = mint.create_handle().unwrap();
    assert_eq!(a.index(), 1);
    assert_eq!(b.index(), 2);
    assert_eq!(c.index(), 3);
    assert_ne!(a, b);
    assert_ne!(b, c);
    assert_eq!(a, a);
}

#[test]
fn minted_handles_key_a_page() {
    let mut mint = HandleMint::new();
    let a = mint.create_handle().unwrap();
    let b = mint.create_handle().unwrap();
    let mut page = AtlasPage::new(Extent::splat(10));
    assert_eq!(
        page.insert(a, Extent::splat(6)),
        Ok(Slot::New(Extent::new(0, 0, 0)))
    );
    assert_eq!(
        page.insert(b, Extent::splat(4)),
        Ok(Slot::New(Extent::new(6, 0, 0)))
    );
    assert_eq!(
        page.insert(a, Extent::splat(6)),
        Ok(Slot::Existing(Extent::new(0, 0, 0)))
    );
}
