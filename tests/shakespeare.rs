use rust_ga::ga::{Genome, Population};
use rust_ga::random::{radint, rex};

const TARGET: [char; 20] = [
    'T', 'o', ' ', 'b', 'e', ',', ' ', 'o', 'r', ' ', 'n', 'o', 't', ' ', 't', 'o', ' ', 'b',
    'e', '.',
];

fn random_char() -> char {
    (rex(32, 122) as u8) as char
}

struct Gene {
    text: [char; 20],
}

impl Genome for Gene {
    fn initial(&self) -> bool {
        self.text.iter().all(|&c| (' '..='y').contains(&c))
    }

    fn spec_fitness(&self) -> u64 {
        self.fitness()
    }

    fn crossed(&self, other: &Self, child: &Self) -> bool {
        (0..20).all(|i| child.text[i] == self.text[i] || child.text[i] == other.text[i])
    }

    fn mutated(&self, m: &Self) -> bool {
        m.text.iter().all(|&c| (' '..='y').contains(&c))
    }

    fn new() -> Self {
        let mut text = [0u8 as char; 20];
        for i in 0..20 {
            text[i] = random_char();
        }
        Self { text }
    }

    fn fitness(&self) -> u64 {
        let matches = (0..20).filter(|&i| self.text[i] == TARGET[i]).count() as u32;
        2u64.pow(matches)
    }

    fn cross(&self, other: &Self) -> Self {
        let mut text = [0u8 as char; 20];
        for i in 0..20 {
            text[i] = match radint(2) {
                0 => self.text[i],
                1 => other.text[i],
                _ => random_char(),
            }
        }
        Self { text }
    }

    fn mutate(mut self) -> Self {
        for i in 0..20 {
            if radint(100) < 1 {
                self.text[i] = random_char();
            }
        }
        self
    }

    fn display(&self) {
        let display_text: String = self.text.iter().cloned().collect();
        println!("{}", display_text);
    }
}

#[test]
fn test_shakespear() {
    let mut population: Population<Gene> = Population::new(100);
    for _ in 0..1000 {
        assert!(population.live().is_ok());
        population.next_generation();
    }
    assert_eq!(population.size(), 100);
}
