use forest::error::Error;
use forest::story::{nodes_story_get, StoryNodeRes, StoryStep, StoryWalk};

fn row(text: &str, parent: Option<i32>, tree: i32) -> StoryNodeRes {
    StoryNodeRes { text: text.to_string(), parent, tree }
}

fn fetch(walk: StoryWalk, r: Result<StoryNodeRes, Error>) -> StoryWalk {
    match walk.step(r) {
        StoryStep::Fetch(w) => w,
        other => panic!("expected to fetch, got {:?}", other),
    }
}

#[test]
fn story_climbs_to_the_root_and_reads_downwards() {
    let walk = nodes_story_get(5);
    assert_eq!(walk.next_id(), 5);
    let walk = fetch(walk, Ok(row("five", Some(3), 7)));
    assert_eq!(walk.next_id(), 3);
    let walk = fetch(walk, Ok(row("three", Some(1), 7)));
    assert_eq!(walk.next_id(), 1);
    match walk.step(Ok(row("one", None, 7))) {
        StoryStep::Done(story) => {
            assert_eq!(story.tree, 7);
            let got: Vec<(i32, &str)> = story.nodes.iter().map(|n| (n.id, n.text.as_str())).collect();
            assert_eq!(got, vec![(1, "one"), (3, "three"), (5, "five")]);
        },
        other => panic!("unexpected {:?}", other),
    }
}

#[test]
fn story_of_a_root_is_the_root_alone() {
    match nodes_story_get(2).step(Ok(row("root", None, 4))) {
        StoryStep::Done(story) => {
            assert_eq!(story.tree, 4);
            assert_eq!(story.nodes.len(), 1);
            assert_eq!((story.nodes[0].id, story.nodes[0].text.as_str()), (2, "root"));
        },
        other => panic!("unexpected {:?}", other),
    }
}

#[test]
fn a_failed_fetch_fails_the_story() {
    let walk = fetch(nodes_story_get(9), Ok(row("nine", Some(8), 1)));
    match walk.step(Err(Error::DBError("gone".to_string()))) {
        StoryStep::Failed(Error::DBError(m)) => assert_eq!(m, "gone"),
        other => panic!("unexpected {:?}", other),
    }
}
