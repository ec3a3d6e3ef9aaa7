use bidrum::hat::BidrumHat;

// The hat reports whether the player is spinning; this prints what it says
// for a while.
#[test]
fn test() {
    let hat = BidrumHat::new();

    println!("Running test");
    for _ in 0..100 {
        if hat.spinning() {
            println!("spinning");
        } else {
            println!("not spinning");
        }
    }
    assert!(!hat.spinning());
}

#[test]
fn hat_spinning_follows_reports() {
    let mut hat = BidrumHat::new();
    assert!(!hat.spinning());
    hat.report(true);
    assert!(hat.spinning());
    hat.report(true);
    assert!(hat.spinning());
    hat.report(false);
    assert!(!hat.spinning());
}
