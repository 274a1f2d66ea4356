use ireal::{parse_url, render};

const WORK: &str = "irealb://Work=Monk%20Thelonious==Medium%20Swing=Db==1r34LbK\
        cu7KQyX74Db7X7bEZL7E%207FZL%20lKcQyX7bGZL%20lcKQyXyQ%7CD4TA%2A%7B7F%7CQy%5\
        B%2ABD7L%20lcKQyX5b7C%7CQXy5b7GZL5b7G%20susZCh7X%7D%20%20lcFZL%20l7%20A7L7\
        bGZL%20lcKQyX7bCD%2A%5B%5DQyX5%239b7bAZXyQKcE%7CQyX7%20E7LZEb7XyQ%7CD7XyQK\
        cl%20Q%20ZY%7CQGXyQZ%20==0=0===";

#[test]
fn work() {
    let text = "irealb://Work=Monk%20Thelonious==Medium%20Swing=Db==1r34LbK\
                cu7KQyX74Db7X7bEZL7E%207FZL%20lKcQyX7bGZL%20lcKQyXyQ%7CD4TA%2A%7B7F%7CQy%5\
                B%2ABD7L%20lcKQyX5b7C%7CQXy5b7GZL5b7G%20susZCh7X%7D%20%20lcFZL%20l7%20A7L7\
                bGZL%20lcKQyX7bCD%2A%5B%5DQyX5%239b7bAZXyQKcE%7CQyX7%20E7LZEb7XyQ%7CD7XyQK\
                cl%20Q%20ZY%7CQGXyQZ%20==0=0===";
    let result = parse_url(text).unwrap();

    assert_eq!(result.title, String::new());
    let song = &result.songs[0];
    assert_eq!(song.title, "Work".to_string());
    assert_eq!(song.composer, "Monk Thelonious".to_string());
    assert_eq!(song.style, "Medium Swing".to_string());
    assert_eq!(song.key, "Db".to_string());
    assert_eq!(render(&song.music),
"|: [A] 4/4    Db7                  |             %           |    Gb7                  |             %           |
|     F7           E7      |    Eb7                  |     D7                  |             %           :|
|| [B]  D7sus         G7b5      |   G7b5                  |   C7b5                  |             %           |
|    Ch7                  |     F7                  |     E7           A7      | Ab7b9#5                  ||
|| [C]    Db7                  |             %           |    Gb7                  |             %           |
|     F7           E7      |    Eb7                  |     D7                  |             %            ùÑå|
| ùÑå      G                  |
");
}

#[test]
fn work_has_twenty_five_bars() {
    let result = parse_url(WORK).unwrap();
    let music = &result.songs[0].music;
    assert_eq!(music.bars.len(), 25);
    assert_eq!(music.written_bars.len(), 25);
    assert_eq!(music.repeat_start, Some(0));
}

#[test]
fn work_has_its_chords_in_place() {
    let result = parse_url(WORK).unwrap();
    let music = &result.songs[0].music;
    let text = |bar: usize, slot: usize| match &music.bars[bar].counts[slot] {
        ireal::CountElement::Chord(chord, _) => chord.to_text(),
        ireal::CountElement::Empty => String::new(),
    };
    assert_eq!(text(0, 0), "Db7".to_string());
    assert_eq!(text(0, 2), String::new());
    assert_eq!(text(1, 0), "Db7".to_string());
    assert_eq!(text(4, 0), "F7".to_string());
    assert_eq!(text(4, 2), "E7".to_string());
    assert_eq!(text(8, 0), "D7sus".to_string());
    assert_eq!(text(8, 2), "G7b5".to_string());
    assert_eq!(text(9, 0), "G7b5".to_string());
    assert_eq!(text(10, 0), "C7b5".to_string());
    assert_eq!(text(12, 0), "Ch7".to_string());
    assert_eq!(text(15, 0), "Ab7b9#5".to_string());
    assert_eq!(text(24, 0), "G".to_string());
    assert!(music.bars.iter().all(|bar| bar.counts.len() == 4));
    assert!(music.bars[7].repeat_end);
    assert!(music.bars[8].double_start);
    assert!(music.bars[15].double_end);
    assert!(music.bars[23].final_bar);
    assert!(music.bars[24].final_bar);
}

#[test]
fn work_keeps_its_descrambled_text() {
    let result = parse_url(WORK).unwrap();
    assert_eq!(
        result.songs[0].music.raw,
        "{*AT44Db7XyQKcl LZGb7XyQKcl LZF7 E7LZEb7XyQ|D7XyQKcl  }[*BD7sus G7b5LZG7b5XyQ|C7b5XyQKcl \
         LZCh7XyQ|F7XyQ|E7 A7LZAb7b9#5XyQ][*CDb7XyQKcl LZGb7XyQKcl LZF7 E7LZEb7XyQ|D7XyQKcl Q ZY|QG\
         XyQZ "
            .to_string()
    );
    assert_eq!(result.songs[0].bpm, 0);
    assert_eq!(result.songs[0].repeats, "0".to_string());
    assert_eq!(result.songs[0].transpose, String::new());
    assert_eq!(result.songs[0].comp_style, String::new());
}

#[test]
fn work_chart_is_the_same_each_time() {
    let result = parse_url(WORK).unwrap();
    let music = &result.songs[0].music;
    assert_eq!(render(music), render(music));
    assert_eq!(render(music).lines().count(), 7);
}
