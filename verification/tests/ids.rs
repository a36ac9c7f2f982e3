use kludgine::ext::VecExt;
use kludgine::runtime::initialize;
use kludgine::sealed::{TextureId, TextureIdCounter};
use kludgine::{IdCounter, KludgineId};

#[test]
fn ids_count_up() {
    let mut counter = IdCounter::new();
    assert_eq!(KludgineId::unique(&mut counter), KludgineId(0));
    assert_eq!(KludgineId::unique(&mut counter), KludgineId(1));
    let mut textures = TextureIdCounter::new();
    let first = TextureId::new_unique_id(&mut textures);
    let second = TextureId::new_unique_id(&mut textures);
    assert_ne!(first, second);
    assert_eq!(second, TextureId(1));
}

#[test]
fn initialize_installs_once() {
    let mut pool = None;
    initialize(&mut pool, || 5);
    assert_eq!(pool, Some(5));
    initialize(&mut pool, || 6);
    assert_eq!(pool, Some(5));
}

#[test]
fn reversed_vec() {
    assert_eq!(vec![1, 2, 3].reversed(), vec![3, 2, 1]);
    assert!(Vec::<u8>::new().reversed().is_empty());
}
