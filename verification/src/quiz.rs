//! Quizzes: what a user is shown of one, and the answers that a user hands
//! in. How answers are scored is not decided here.

use vstd::prelude::*;

verus! {

/// A question of a quiz, with the answers that count as correct.
#[derive(Debug)]
pub struct QuizQuestion {
    pub kind: String,
    pub layout: String,
    pub question: String,
    pub options: Vec<String>,
    pub correct_answers: Vec<usize>,
    pub image_for_layout: Option<String>,
}

/// A quiz.
#[derive(Debug)]
pub struct Quiz {
    pub id: String,
    pub name: String,
    pub desc: String,
    pub questions: Vec<QuizQuestion>,
}

/// A question as a user is shown it: without the correct answers.
#[derive(Debug)]
pub struct QuizQuestionResp {
    pub kind: String,
    pub layout: String,
    pub question: String,
    pub options: Vec<String>,
    pub image_for_layout: Option<String>,
}

/// A quiz as a user is shown it.
#[derive(Debug)]
pub struct QuizResponse {
    pub name: String,
    pub desc: String,
    pub questions: Vec<QuizQuestionResp>,
}

/// Why there is no quiz to show.
#[derive(Clone, Copy, Debug, PartialEq, Eq, Structural)]
pub enum QuizError {
    /// No quiz has the identifier.
    NotFound,
}

/// Why the answers were refused.
#[derive(Clone, Copy, Debug, PartialEq, Eq, Structural)]
pub enum AnswerError {
    /// An answer is not the number of an option.
    NotANumber,
}

/// The question without its correct answers.
pub open spec fn shown_question(question: QuizQuestion) -> QuizQuestionResp {
    QuizQuestionResp {
        kind: question.kind,
        layout: question.layout,
        question: question.question,
        options: question.options,
        image_for_layout: question.image_for_layout,
    }
}

/// The first quiz with the identifier, if there is one.
pub open spec fn first_quiz(quizzes: Seq<Quiz>, id: Seq<char>) -> Option<Quiz>
    decreases quizzes.len(),
{
    if quizzes.len() == 0 {
        None
    } else if quizzes.first().id@ == id {
        Some(quizzes.first())
    } else {
        first_quiz(quizzes.drop_first(), id)
    }
}

impl QuizResponse {
    /// What a user is shown of the quiz: its name, its description and its
    /// questions in order, none with its correct answers.
    pub fn from_quiz(quiz: Quiz) -> (shown: QuizResponse)
        ensures
            shown.name == quiz.name,
            shown.desc == quiz.desc,
            shown.questions@ == quiz.questions@.map_values(|q: QuizQuestion| shown_question(q)),
    {
        let ghost all = quiz.questions@;
        let mut questions: Vec<QuizQuestionResp> = Vec::new();
        for question in it: quiz.questions
            invariant
                it.seq() == all,
                questions@ == all.take(it.index() as int).map_values(
                    |q: QuizQuestion| shown_question(q),
                ),
        {
            let ghost before = questions@;
            questions.push(
                QuizQuestionResp {
                    kind: question.kind,
                    layout: question.layout,
                    question: question.question,
                    options: question.options,
                    image_for_layout: question.image_for_layout,
                },
            );
            assert(questions@ =~= all.take(it.index() + 1).map_values(
                |q: QuizQuestion| shown_question(q),
            ));
        }
        assert(all.take(all.len() as int) =~= all);
        QuizResponse { name: quiz.name, desc: quiz.desc, questions }
    }
}

/// What a user is shown of the first quiz with the identifier.
pub fn get_quiz(quizzes: Vec<Quiz>, id: &String) -> (shown: Result<QuizResponse, QuizError>)
    ensures
        shown is Ok <==> first_quiz(quizzes@, id@) is Some,
        shown matches Ok(response) ==> {
            let quiz = first_quiz(quizzes@, id@)->Some_0;
            &&& response.name == quiz.name
            &&& response.desc == quiz.desc
            &&& response.questions@ == quiz.questions@.map_values(
                |q: QuizQuestion| shown_question(q),
            )
        },
{
    let ghost all = quizzes@;
    assert(all.skip(0) =~= all);
    for quiz in it: quizzes
        invariant
            it.seq() == all,
            first_quiz(all, id@) == first_quiz(all.skip(it.index() as int), id@),
    {
        proof {
            let rest = all.skip(it.index() as int);
            assert(rest.first() == quiz);
            assert(rest.drop_first() =~= all.skip(it.index() + 1));
        }
        if quiz.id == *id {
            return Ok(QuizResponse::from_quiz(quiz));
        }
    }
    Err(QuizError::NotFound)
}

/// Whether every number of the first sequence occurs in the second.
pub open spec fn all_among(numbers: Seq<usize>, others: Seq<usize>) -> bool {
    forall|i: int| 0 <= i < numbers.len() ==> others.contains(#[trigger] numbers[i])
}

/// Whether the answers handed in for one question are the correct ones:
/// the same numbers, in whatever order and however often repeated.
pub open spec fn answer_correct(question: QuizQuestion, answers: Seq<usize>) -> bool {
    answers.to_set() == question.correct_answers@.to_set()
}

/// Whether a quiz is answered correctly: one list of answers for each
/// question, each the correct one for its question.
pub open spec fn answers_correct(questions: Seq<QuizQuestion>, answers: Seq<Vec<usize>>) -> bool {
    &&& answers.len() == questions.len()
    &&& forall|i: int|
        0 <= i < questions.len() ==> answer_correct(#[trigger] questions[i], answers[i]@)
}

/// Two sequences hold the same numbers exactly if every number of each
/// occurs in the other.
pub proof fn lemma_same_numbers(numbers: Seq<usize>, others: Seq<usize>)
    ensures
        (numbers.to_set() == others.to_set()) == (all_among(numbers, others) && all_among(
            others,
            numbers,
        )),
{
    if numbers.to_set() == others.to_set() {
        assert forall|i: int| 0 <= i < numbers.len() implies others.contains(
            #[trigger] numbers[i],
        ) by {
            assert(numbers.to_set().contains(numbers[i]));
        }
        assert forall|i: int| 0 <= i < others.len() implies numbers.contains(
            #[trigger] others[i],
        ) by {
            assert(others.to_set().contains(others[i]));
        }
    }
    if all_among(numbers, others) && all_among(others, numbers) {
        assert forall|x: usize| numbers.to_set().contains(x) == others.to_set().contains(x) by {
            if numbers.contains(x) {
                let i = choose|i: int| 0 <= i < numbers.len() && numbers[i] == x;
                assert(others.contains(numbers[i]));
            }
            if others.contains(x) {
                let i = choose|i: int| 0 <= i < others.len() && others[i] == x;
                assert(numbers.contains(others[i]));
            }
        }
        assert(numbers.to_set() =~= others.to_set());
    }
}

/// Whether every number of the first list occurs in the second.
fn each_among(numbers: &Vec<usize>, others: &Vec<usize>) -> (all: bool)
    ensures
        all == all_among(numbers@, others@),
{
    let mut i: usize = 0;
    while i < numbers.len()
        invariant
            i <= numbers@.len(),
            forall|k: int| 0 <= k < i ==> others@.contains(#[trigger] numbers@[k]),
        decreases numbers@.len() - i,
    {
        let mut found = false;
        let mut j: usize = 0;
        while j < others.len()
            invariant
                j <= others@.len(),
                i < numbers@.len(),
                found ==> others@.contains(numbers@[i as int]),
                !found ==> forall|k: int| 0 <= k < j ==> others@[k] != numbers@[i as int],
            decreases others@.len() - j,
        {
            if others[j] == numbers[i] {
                found = true;
            }
            j += 1;
        }
        if !found {
            assert(!others@.contains(numbers@[i as int]));
            return false;
        }
        i += 1;
    }
    true
}

/// Whether a quiz is answered correctly.
pub fn answers_match(quiz: &Quiz, answers: &Vec<Vec<usize>>) -> (correct: bool)
    ensures
        correct == answers_correct(quiz.questions@, answers@),
{
    if answers.len() != quiz.questions.len() {
        return false;
    }
    let mut i: usize = 0;
    while i < answers.len()
        invariant
            i <= answers@.len(),
            answers@.len() == quiz.questions@.len(),
            forall|k: int|
                0 <= k < i ==> answer_correct(#[trigger] quiz.questions@[k], answers@[k]@),
        decreases answers@.len() - i,
    {
        let given = &answers[i];
        let wanted = &quiz.questions[i].correct_answers;
        proof {
            lemma_same_numbers(given@, wanted@);
        }
        if !(each_among(given, wanted) && each_among(wanted, given)) {
            return false;
        }
        i += 1;
    }
    true
}

/// Whether the character is a decimal digit.
pub open spec fn is_digit(c: char) -> bool {
    48 <= c as u32 <= 57
}

/// The number that a string of decimal digits denotes.
pub open spec fn digits_value(digits: Seq<char>) -> nat
    decreases digits.len(),
{
    if digits.len() == 0 {
        0
    } else {
        digits_value(digits.drop_last()) * 10 + (digits.last() as u32 - 48) as nat
    }
}

/// The digits of an answer: the text, without a plus sign in front.
pub open spec fn answer_digits(text: Seq<char>) -> Seq<char> {
    if text.len() > 0 && text[0] == '+' {
        text.skip(1)
    } else {
        text
    }
}

/// The number that an answer denotes: one or more decimal digits, with or
/// without a plus sign in front, that denote a number which the machine's
/// word holds.
pub open spec fn parsed_answer(text: Seq<char>) -> Option<usize> {
    let digits = answer_digits(text);
    if digits.len() > 0 && (forall|i: int| 0 <= i < digits.len() ==> is_digit(#[trigger] digits[i]))
        && digits_value(digits) <= usize::MAX {
        Some(digits_value(digits) as usize)
    } else {
        None
    }
}

/// More digits denote no smaller a number.
pub proof fn lemma_digits_value_grows(digits: Seq<char>, k: int)
    requires
        0 <= k <= digits.len(),
        forall|i: int| 0 <= i < digits.len() ==> is_digit(#[trigger] digits[i]),
    ensures
        digits_value(digits.take(k)) <= digits_value(digits),
    decreases digits.len() - k,
{
    if k < digits.len() {
        lemma_digits_value_grows(digits, k + 1);
        assert(digits.take(k + 1).drop_last() =~= digits.take(k));
        assert(is_digit(digits[k]));
    } else {
        assert(digits.take(k) =~= digits);
    }
}

/// The number that an answer denotes, if it denotes one.
pub fn parse_answer(text: &str) -> (parsed: Option<usize>)
    ensures
        parsed == parsed_answer(text@),
{
    let len = text.unicode_len();
    let start: usize = if len > 0 && text.get_char(0) == '+' {
        1
    } else {
        0
    };
    if start == len {
        return None;
    }
    let ghost digits = answer_digits(text@);
    let mut value: usize = 0;
    let mut i: usize = start;
    assert(digits.take(0) =~= Seq::<char>::empty());
    while i < len
        invariant
            start <= i <= len,
            len == text@.len(),
            start <= 1,
            digits == answer_digits(text@),
            digits == text@.skip(start as int),
            forall|j: int| 0 <= j < i - start ==> is_digit(#[trigger] digits[j]),
            value == digits_value(digits.take(i - start)),
        decreases len - i,
    {
        let c = text.get_char(i);
        assert(c == digits[i - start]);
        let code = c as u32;
        if code < 48 || code > 57 {
            return None;
        }
        let digit: usize = (code - 48) as usize;
        proof {
            assert(digits.take(i - start + 1).drop_last() =~= digits.take(i - start));
        }
        let next = match value.checked_mul(10) {
            Some(tens) => tens.checked_add(digit),
            None => None,
        };
        match next {
            Some(next) => {
                value = next;
            },
            None => {
                proof {
                    if forall|j: int| 0 <= j < digits.len() ==> is_digit(#[trigger] digits[j]) {
                        lemma_digits_value_grows(digits, i - start + 1);
                    }
                }
                return None;
            },
        }
        i += 1;
    }
    assert(digits.take(digits.len() as int) =~= digits);
    Some(value)
}

/// The numbers that lists of answers denote.
pub open spec fn parsed_lists(lists: Seq<Vec<String>>) -> Seq<Seq<Option<usize>>> {
    Seq::new(
        lists.len(),
        |i: int| Seq::new(lists[i]@.len(), |j: int| parsed_answer(lists[i]@[j]@)),
    )
}

/// Whether every answer of every list denotes a number.
pub open spec fn all_parse(lists: Seq<Vec<String>>) -> bool {
    forall|i: int, j: int|
        0 <= i < lists.len() && 0 <= j < lists[i]@.len() ==> (#[trigger] parsed_lists(
            lists,
        )[i][j]) is Some
}

/// The answers of one question as numbers, if every one denotes a number.
fn parse_list(list: &Vec<String>) -> (parsed: Option<Vec<usize>>)
    ensures
        parsed is Some <==> (forall|j: int|
            0 <= j < list@.len() ==> parsed_answer(#[trigger] list@[j]@) is Some),
        parsed matches Some(numbers) ==> {
            &&& numbers@.len() == list@.len()
            &&& forall|j: int|
                0 <= j < list@.len() ==> parsed_answer(list@[j]@) == Some(#[trigger] numbers@[j])
        },
{
    let mut numbers: Vec<usize> = Vec::new();
    let mut j: usize = 0;
    while j < list.len()
        invariant
            j <= list@.len(),
            numbers@.len() == j,
            forall|k: int| 0 <= k < j ==> parsed_answer(#[trigger] list@[k]@) is Some,
            forall|k: int| 0 <= k < j ==> parsed_answer(list@[k]@) == Some(#[trigger] numbers@[k]),
        decreases list@.len() - j,
    {
        match parse_answer(list[j].as_str()) {
            Some(number) => {
                numbers.push(number);
            },
            None => {
                return None;
            },
        }
        j += 1;
    }
    Some(numbers)
}

/// The answers that a user handed in, as numbers: one list for each
/// question. One answer that denotes no number refuses them all.
pub fn parse_answers(lists: &Vec<Vec<String>>) -> (parsed: Result<Vec<Vec<usize>>, AnswerError>)
    ensures
        parsed is Ok <==> all_parse(lists@),
        parsed matches Ok(numbers) ==> {
            &&& numbers@.len() == lists@.len()
            &&& forall|i: int|
                0 <= i < lists@.len() ==> (#[trigger] numbers@[i])@.len() == lists@[i]@.len()
            &&& forall|i: int, j: int|
                0 <= i < lists@.len() && 0 <= j < lists@[i]@.len() ==> parsed_lists(
                    lists@,
                )[i][j] == Some(#[trigger] numbers@[i]@[j])
        },
{
    let mut numbers: Vec<Vec<usize>> = Vec::new();
    let mut i: usize = 0;
    while i < lists.len()
        invariant
            i <= lists@.len(),
            numbers@.len() == i,
            forall|k: int| 0 <= k < i ==> (#[trigger] numbers@[k])@.len() == lists@[k]@.len(),
            forall|k: int, j: int|
                0 <= k < i && 0 <= j < lists@[k]@.len() ==> parsed_lists(lists@)[k][j] == Some(
                    #[trigger] numbers@[k]@[j],
                ),
        decreases lists@.len() - i,
    {
        match parse_list(&lists[i]) {
            Some(list) => {
                numbers.push(list);
            },
            None => {
                proof {
                    let j = choose|j: int|
                        0 <= j < lists@[i as int]@.len() && !(parsed_answer(
                            #[trigger] lists@[i as int]@[j]@,
                        ) is Some);
                    assert(!(parsed_lists(lists@)[i as int][j] is Some));
                }
                return Err(AnswerError::NotANumber);
            },
        }
        i += 1;
    }
    proof {
        assert forall|k: int, j: int|
            0 <= k < lists@.len() && 0 <= j < lists@[k]@.len() implies (#[trigger] parsed_lists(
            lists@,
        )[k][j]) is Some by {
            assert(parsed_lists(lists@)[k][j] == Some(numbers@[k]@[j]));
        }
    }
    Ok(numbers)
}

} // verus!
