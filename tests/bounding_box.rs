use softraster::bounding_box::BoundingBox;
use softraster::bounding_box::UVec2;

const A: BoundingBox = BoundingBox {
    start: UVec2 { x: 100, y: 100 },
    end: UVec2 { x: 200, y: 200 },
};

const B: BoundingBox = BoundingBox {
    start: UVec2 { x: 50, y: 50 },
    end: UVec2 { x: 150, y: 150 },
};

const C: BoundingBox = BoundingBox {
    start: UVec2 { x: 200, y: 200 },
    end: UVec2 { x: 300, y: 300 },
};

#[test]
fn intersection() {
    let c = A.intersect(&B).unwrap();
    assert!(c.start.x == 100 && c.start.y == 100 && c.end.x == 150 && c.end.y == 150)
}

#[test]
fn no_intersection() {
    let i = C.intersect(&B);
    assert!(i.is_none())
}

#[test]
fn intersection_is_symmetric() {
    assert_eq!(A.intersect(&B), B.intersect(&A));
    assert_eq!(C.intersect(&B), B.intersect(&C));
    assert_eq!(A.intersect(&C), C.intersect(&A));
}

#[test]
fn touching_boxes_share_no_pixel() {
    // [100, 200) and [200, 300) meet at a border but hold no common column.
    assert!(A.intersect(&C).is_none());
}

#[test]
fn disjoint_on_one_axis_only() {
    let d = BoundingBox::new(UVec2::new(120, 0), UVec2::new(180, 50));
    assert!(A.intersect(&d).is_none());
    let e = BoundingBox::new(UVec2::new(120, 0), UVec2::new(180, 101));
    let r = A.intersect(&e).unwrap();
    assert_eq!(r, BoundingBox::new(UVec2::new(120, 100), UVec2::new(180, 101)));
}

#[test]
fn contained_box_is_its_own_intersection() {
    let inner = BoundingBox::new(UVec2::new(120, 130), UVec2::new(140, 150));
    assert_eq!(A.intersect(&inner), Some(inner));
}

#[test]
fn empty_box_intersects_nothing() {
    let empty = BoundingBox::new(UVec2::new(150, 150), UVec2::new(150, 160));
    assert!(A.intersect(&empty).is_none());
}

#[test]
fn uvec2_min_max() {
    let a = UVec2::new(3, 9);
    let b = UVec2::new(5, 2);
    assert_eq!(a.max(b), UVec2::new(5, 9));
    assert_eq!(a.min(b), UVec2::new(3, 2));
}
