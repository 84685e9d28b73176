use graphics::hittable_list::HittableList;

/// A world of members that would each be hit at a fixed parameter, or not at
/// all.
fn world(candidates: &[Option<f64>]) -> HittableList<(usize, Option<f64>)> {
    let mut list = HittableList::new();
    for (i, c) in candidates.iter().enumerate() {
        list.add((i, *c));
    }
    list
}

/// Asked with a window, a member answers where its parameter lies within it.
fn find(candidates: &[Option<f64>], t_min: f64, t_max: f64) -> Option<(f64, usize)> {
    let probe = |member: &(usize, Option<f64>), limit: u64| match member.1 {
        Some(t) if t >= t_min && t <= f64::from_bits(limit) => Some((t.to_bits(), member.0)),
        _ => None,
    };
    world(candidates).hit(t_max.to_bits(), &probe).map(|(t, i)| (f64::from_bits(t), i))
}

#[test]
fn a_new_world_is_empty() {
    let list: HittableList<u8> = HittableList::new();
    assert!(list.objects.is_empty());
}

#[test]
fn members_are_added_in_order_and_cleared() {
    let mut list = HittableList::new();
    list.add('a');
    list.add('b');
    list.add('c');
    assert_eq!(list.objects, vec!['a', 'b', 'c']);
    let copy = list.clone();
    list.clear();
    assert!(list.objects.is_empty());
    assert_eq!(copy.objects, vec!['a', 'b', 'c']);
    list.add('d');
    assert_eq!(list.objects, vec!['d']);
}

#[test]
fn an_empty_world_has_no_hit() {
    assert_eq!(find(&[], 0.001, f64::INFINITY), None);
}

#[test]
fn a_world_that_the_ray_misses_has_no_hit() {
    assert_eq!(find(&[None, None, None], 0.001, f64::INFINITY), None);
    assert_eq!(find(&[Some(0.0), Some(-2.0)], 0.001, f64::INFINITY), None);
    assert_eq!(find(&[Some(7.0)], 0.001, 5.0), None);
}

#[test]
fn the_only_hit_is_the_closest() {
    assert_eq!(find(&[None, Some(2.0), None], 0.001, f64::INFINITY), Some((2.0, 1)));
}

#[test]
fn the_closest_of_several_hits_is_found() {
    assert_eq!(find(&[Some(5.0), Some(2.0), Some(3.0)], 0.001, f64::INFINITY), Some((2.0, 1)));
    assert_eq!(find(&[Some(2.0), Some(3.0), Some(5.0)], 0.001, f64::INFINITY), Some((2.0, 0)));
    assert_eq!(find(&[Some(5.0), Some(3.0), Some(2.0)], 0.001, f64::INFINITY), Some((2.0, 2)));
}

#[test]
fn the_order_of_the_members_does_not_change_the_closest_parameter() {
    let members = [Some(4.5), None, Some(1000.0), Some(0.75), Some(2.0), None, Some(0.8)];
    let mut order: Vec<usize> = (0..members.len()).collect();
    // Every rotation and its reverse.
    for _ in 0..members.len() {
        order.rotate_left(1);
        for reversed in [false, true] {
            let mut now = order.clone();
            if reversed {
                now.reverse();
            }
            let shuffled: Vec<Option<f64>> = now.iter().map(|&i| members[i]).collect();
            let found = find(&shuffled, 0.001, f64::INFINITY).unwrap();
            assert_eq!(found.0, 0.75);
            assert_eq!(now[found.1], 3);
        }
    }
}

#[test]
fn each_member_is_asked_with_the_closest_hit_so_far() {
    let asked = std::cell::RefCell::new(Vec::new());
    let hits = [Some(5.0f64), None, Some(3.0), Some(4.0), Some(1.0)];
    let probe = |member: &(usize, Option<f64>), limit: u64| {
        let limit = f64::from_bits(limit);
        asked.borrow_mut().push((member.0, limit));
        match member.1 {
            Some(t) if t <= limit => Some((t.to_bits(), member.0)),
            _ => None,
        }
    };
    let found = world(&hits).hit(100.0f64.to_bits(), &probe);
    assert_eq!(found, Some((1.0f64.to_bits(), 4)));
    assert_eq!(
        *asked.borrow(),
        vec![(0, 100.0), (1, 5.0), (2, 5.0), (3, 3.0), (4, 3.0)]
    );
}

#[test]
fn the_last_answer_is_kept_whatever_it_says() {
    // A member that answers beyond its window is still taken at its word.
    let probe = |member: &(usize, Option<f64>), _limit: u64| {
        Some(((member.0 as f64).to_bits(), member.0))
    };
    let found = world(&[None, None, None]).hit(0.5f64.to_bits(), &probe);
    assert_eq!(found, Some((2.0f64.to_bits(), 2)));
}
